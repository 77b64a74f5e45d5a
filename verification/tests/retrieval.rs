use shortcut_release_helper::retrieval::{
    watch, ItemRetriever, RequestStep, RetrieveError, WaitStep, WatchEvent, WatchStep,
};
use std::sync::Arc;

type Retriever = ItemRetriever<&'static str, i64, u8>;

#[test]
fn unknown_item_is_to_be_submitted() {
    let retriever = Retriever::new();
    assert!(!retriever.was_requested(7));
    assert!(matches!(retriever.request(7), RequestStep::Submit));
}

#[test]
fn waiting_for_an_unknown_item_fails() {
    let retriever = Retriever::new();
    match retriever.wait_for(-7) {
        WaitStep::Done(Err(error)) => {
            assert!(matches!(error, RetrieveError::NeverRequested(-7)));
            assert_eq!(error.message(), "Item -7 was never requested");
        }
        _ => panic!("nobody requested the item"),
    }
}

#[test]
fn submitted_item_is_pending() {
    let mut retriever = Retriever::new();
    assert!(matches!(retriever.submitted(7, Ok(()), 1), Ok(None)));
    assert!(retriever.was_requested(7));
    assert!(!retriever.was_requested(8));
    assert!(matches!(retriever.request(7), RequestStep::Pending(1)));
    assert!(matches!(retriever.wait_for(7), WaitStep::Pending(1)));
}

#[test]
fn received_item_is_handed_out() {
    let mut retriever = Retriever::new();
    assert!(retriever.submitted(7, Ok(()), 1).is_ok());
    assert!(retriever.submitted(8, Ok(()), 2).is_ok());
    assert_eq!(retriever.item_received(7, "story"), Some((1, Arc::new("story"))));
    match retriever.request(7) {
        RequestStep::Done(Ok(Some(Some(item)))) => assert_eq!(*item, "story"),
        _ => panic!("the item was received"),
    }
    match retriever.wait_for(7) {
        WaitStep::Done(Ok(Some(item))) => assert_eq!(*item, "story"),
        _ => panic!("the item was received"),
    }
    assert!(matches!(retriever.wait_for(8), WaitStep::Pending(2)));
}

#[test]
fn published_item_is_the_stored_one() {
    let mut retriever = Retriever::new();
    assert!(retriever.submitted(7, Ok(()), 1).is_ok());
    let (_, published) = retriever.item_received(7, "story").unwrap();
    match retriever.wait_for(7) {
        WaitStep::Done(Ok(Some(item))) => assert!(Arc::ptr_eq(&item, &published)),
        _ => panic!("the item was received"),
    }
}

#[test]
fn missing_item_is_known_to_be_missing() {
    let mut retriever = Retriever::new();
    assert!(retriever.submitted(7, Ok(()), 1).is_ok());
    assert_eq!(retriever.item_not_found(7), Some(1));
    assert!(matches!(retriever.request(7), RequestStep::Done(Ok(Some(None)))));
    assert!(matches!(retriever.wait_for(7), WaitStep::Done(Ok(None))));
}

#[test]
fn late_answers_change_nothing() {
    let mut retriever = Retriever::new();
    assert!(retriever.submitted(7, Ok(()), 1).is_ok());
    assert_eq!(retriever.item_not_found(7), Some(1));
    assert_eq!(retriever.item_received(7, "late"), None);
    assert_eq!(retriever.item_not_found(7), None);
    assert!(matches!(retriever.wait_for(7), WaitStep::Done(Ok(None))));
}

#[test]
fn request_that_cannot_be_submitted_fails_for_good() {
    let mut retriever = Retriever::new();
    match retriever.submitted(7, Err("channel closed".to_string()), 1) {
        Err(error) => assert_eq!(error.message(), "channel closed"),
        Ok(_) => panic!("the request was not submitted"),
    }
    match retriever.request(7) {
        RequestStep::Done(Err(error)) => assert_eq!(error.message(), "channel closed"),
        _ => panic!("the request was not submitted"),
    }
    match retriever.wait_for(7) {
        WaitStep::Done(Err(error)) => assert_eq!(error.message(), "channel closed"),
        _ => panic!("the request was not submitted"),
    }
    assert_eq!(retriever.item_received(7, "late"), None);
    assert!(matches!(retriever.wait_for(7), WaitStep::Done(Err(_))));
}

#[test]
fn any_error_means_missing() {
    let mut retriever = Retriever::new();
    assert!(retriever.submitted(7, Ok(()), 1).is_ok());
    assert!(retriever.submitted(8, Ok(()), 2).is_ok());
    assert_eq!(retriever.answered(7, Err("404")), Some((1, None)));
    assert_eq!(retriever.answered(8, Ok::<_, &str>("epic")), Some((2, Some(Arc::new("epic")))));
    assert_eq!(retriever.answered(8, Err("late")), None);
    assert!(matches!(retriever.wait_for(7), WaitStep::Done(Ok(None))));
    assert!(matches!(retriever.wait_for(8), WaitStep::Done(Ok(Some(_)))));
}

#[test]
fn wait_ends_with_the_answer_that_is_shown() {
    match watch::<&str, i64>(WatchEvent::Shown(Some(Some(Arc::new("story"))))) {
        WatchStep::Done(Ok(Some(item))) => assert_eq!(*item, "story"),
        _ => panic!("an answer is shown"),
    }
    assert!(matches!(
        watch::<&str, i64>(WatchEvent::Shown(Some(None))),
        WatchStep::Done(Ok(None))
    ));
}

#[test]
fn wait_goes_on_while_nothing_is_shown() {
    assert!(matches!(watch::<&str, i64>(WatchEvent::Shown(None)), WatchStep::WaitOn));
}

#[test]
fn wait_fails_when_no_answer_can_come() {
    match watch::<&str, i64>(WatchEvent::Lost("channel closed".to_string())) {
        WatchStep::Done(Err(error)) => assert_eq!(error.message(), "channel closed"),
        _ => panic!("no answer can come"),
    }
}

#[test]
fn watching_and_asking_later_agree() {
    let mut retriever = Retriever::new();
    assert!(retriever.submitted(7, Ok(()), 1).is_ok());
    let (_, published) = retriever.answered(7, Ok::<_, &str>("story")).unwrap();
    let watched = match watch::<&str, i64>(WatchEvent::Shown(Some(published))) {
        WatchStep::Done(Ok(answer)) => answer,
        _ => panic!("an answer is shown"),
    };
    match retriever.wait_for(7) {
        WaitStep::Done(Ok(answer)) => assert_eq!(answer, watched),
        _ => panic!("the item was received"),
    }
}
