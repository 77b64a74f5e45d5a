//! Links from commit messages to stories, such as `[sc-123]`, `feature/ch45` or
//! `https://app.shortcut.com/acme/story/678`.

use crate::decimal::{parse_signed, NumberError};
use crate::decimal::{
    all_digits, decimal, digits, is_digit, law_digits_are_read, law_digits_stand_for_number,
    law_signed_number_holds_digits_only, law_written_signed_number_is_read_back, read_signed, value,
};
use vstd::prelude::*;

verus! {

/// The pattern of a link: what comes before the id, then the id in group
/// [`STORY_ID_GROUP`].
pub const STORY_LINK: &'static str = r"(?:(\[|/)sc-|(\[|/)ch|story/)(\d+)";

/// The group of [`STORY_LINK`] that captures the id.
pub const STORY_ID_GROUP: usize = 3;

/// Whether `\d` of the `regex` crate matches `c`, for a `c` that is not an ASCII
/// character: whether Unicode has it as a decimal digit (general category `Nd`).
pub uninterp spec fn is_unicode_digit(c: char) -> bool;

/// Whether `c` can stand in the id of a link.
pub open spec fn is_link_digit(c: char) -> bool {
    if c as int <= 0x7f {
        is_digit(c)
    } else {
        is_unicode_digit(c)
    }
}

/// Whether `part` stands in `text` at position `i`.
pub open spec fn stands_at(text: Seq<char>, i: int, part: Seq<char>) -> bool {
    0 <= i && i + part.len() <= text.len() && text.subrange(i, i + part.len()) == part
}

/// The length of what comes before the id of a link, if it stands in `text` at
/// position `i`, else 0.
pub open spec fn marker_len(text: Seq<char>, i: int) -> nat {
    if stands_at(text, i, "[sc-"@) || stands_at(text, i, "/sc-"@) {
        4
    } else if stands_at(text, i, "[ch"@) || stands_at(text, i, "/ch"@) {
        3
    } else if stands_at(text, i, "story/"@) {
        6
    } else {
        0
    }
}

/// Whether a link starts in `text` at position `i`.
pub open spec fn link_at(text: Seq<char>, i: int) -> bool {
    let start = i + marker_len(text, i);
    i < start < text.len() && is_link_digit(text[start])
}

/// The position at which the first link in `text` starts, from `i` on.
pub open spec fn first_link(text: Seq<char>, i: int) -> Option<int>
    decreases text.len() - i,
{
    if i >= text.len() {
        None
    } else if link_at(text, i) {
        Some(i)
    } else {
        first_link(text, i + 1)
    }
}

/// The position after the digits that stand in `text` from `i` on.
pub open spec fn digits_end(text: Seq<char>, i: int) -> int
    decreases text.len() - i,
{
    if i < text.len() && is_link_digit(text[i]) {
        digits_end(text, i + 1)
    } else {
        i
    }
}

/// The id in the first link in `text`, as it stands there.
pub open spec fn linked_id(text: Seq<char>) -> Option<Seq<char>> {
    match first_link(text, 0) {
        Some(i) => {
            let start = i + marker_len(text, i);
            Some(text.subrange(start, digits_end(text, start)))
        },
        None => None,
    }
}

/// The story that a commit with this message belongs to.
pub open spec fn story_id_of(message: Option<Seq<char>>) -> Result<Option<int>, NumberError> {
    match message {
        None => Ok(None),
        Some(text) => match linked_id(text) {
            None => Ok(None),
            Some(id) => match read_signed(id) {
                Ok(number) => Ok(Some(number)),
                Err(error) => Err(error),
            },
        },
    }
}

/// The text that `group` captures in the first match of `pattern` in `text`.
///
/// Calls `regex::Regex::new`, `Regex::captures` and `Captures::get`. Of the one
/// pattern that it is for, it is claimed what the documentation of the crate says
/// of its syntax: the match is the leftmost; `|` separates alternatives, of which
/// no two match at the same place; `\d` matches the ASCII digits and, beyond
/// ASCII, the decimal digits of Unicode; and `+` takes as many of them as there
/// are, at least one. The group takes part in every match.
#[verifier::external_body]
fn capture(pattern: &str, group: usize, text: &str) -> (captured: Option<String>)
    requires
        pattern@ == STORY_LINK@,
        group == STORY_ID_GROUP,
    ensures
        match captured {
            Some(id) => linked_id(text@) == Some(id@),
            None => linked_id(text@) is None,
        },
        captured matches Some(id) ==> forall|i: int|
            0 <= i < id@.len() ==> is_digit(#[trigger] id@[i]) || is_unicode_digit(id@[i]),
{
    let regex = regex::Regex::new(pattern).expect("the pattern of a link is well-formed");
    let captures = regex.captures(text)?;
    match captures.get(group) {
        Some(found) => Some(found.as_str().to_owned()),
        None => None,
    }
}

/// Reads the id that a link gives.
pub fn read_linked_id(id: &str) -> (number: Result<i64, NumberError>)
    ensures
        match number {
            Ok(n) => read_signed(id@) == Ok::<int, NumberError>(n as int),
            Err(e) => read_signed(id@) == Err::<int, NumberError>(e),
        },
{
    parse_signed(id)
}

/// The text of a message, if there is a message.
pub open spec fn message_text(message: Option<String>) -> Option<Seq<char>> {
    match message {
        Some(text) => Some(text@),
        None => None,
    }
}

/// The story that a commit with this message belongs to: the one that the first
/// link in the message points to, if there is a link.
///
/// Fails when the link gives an id that is too large or is not written in ASCII
/// digits.
pub fn parse_story_id(message: &Option<String>) -> (story_id: Result<Option<i64>, NumberError>)
    ensures
        match story_id {
            Ok(Some(id)) => id >= 0 && story_id_of(message_text(*message)) == Ok::<
                Option<int>,
                NumberError,
            >(Some(id as int)),
            Ok(None) => story_id_of(message_text(*message)) == Ok::<Option<int>, NumberError>(None),
            Err(e) => story_id_of(message_text(*message)) == Err::<Option<int>, NumberError>(e),
        },
{
    proof {
        law_story_ids_are_not_negative(message_text(*message));
    }
    match message {
        None => Ok(None),
        Some(text) => match capture(STORY_LINK, STORY_ID_GROUP, text.as_str()) {
            None => Ok(None),
            Some(id) => match read_linked_id(id.as_str()) {
                Ok(number) => Ok(Some(number)),
                Err(error) => Err(error),
            },
        },
    }
}

/// The first link is a link, and none starts before it.
pub proof fn law_first_link_is_first(text: Seq<char>, i: int)
    ensures
        match first_link(text, i) {
            Some(found) => {
                &&& i <= found < text.len()
                &&& link_at(text, found)
                &&& forall|j: int| i <= j < found ==> !link_at(text, j)
            },
            None => forall|j: int| i <= j ==> !link_at(text, j),
        },
    decreases text.len() - i,
{
    if i < text.len() && !link_at(text, i) {
        law_first_link_is_first(text, i + 1);
    }
}

/// A message belongs to no story exactly when no link starts anywhere in it.
pub proof fn law_no_link_no_story(text: Seq<char>)
    ensures
        story_id_of(Some(text)) == Ok::<Option<int>, NumberError>(None) <==> forall|i: int|
            0 <= i ==> !link_at(text, i),
{
    law_first_link_is_first(text, 0);
}

/// The digits do not end before they start.
proof fn lemma_digits_end_bounds(text: Seq<char>, i: int)
    requires
        0 <= i <= text.len(),
    ensures
        i <= digits_end(text, i) <= text.len(),
    decreases text.len() - i,
{
    if i < text.len() && is_link_digit(text[i]) {
        lemma_digits_end_bounds(text, i + 1);
    }
}

/// No message belongs to a story with a negative number, or with one that does not
/// fit in 64 bits.
pub proof fn law_story_ids_are_not_negative(message: Option<Seq<char>>)
    ensures
        story_id_of(message) matches Ok(Some(number)) ==> 0 <= number <= i64::MAX,
{
    if let Some(text) = message {
        law_first_link_is_first(text, 0);
        if let Some(i) = first_link(text, 0) {
            let start = i + marker_len(text, i);
            lemma_digits_end_bounds(text, start + 1);
            let id = linked_id(text)->0;
            assert(id[0] == text[start]);
            law_digits_are_read(id, i64::MAX as nat);
        }
    }
}

/// Where the digits end.
proof fn lemma_digits_end(text: Seq<char>, i: int, end: int)
    requires
        0 <= i <= end <= text.len(),
        forall|j: int| i <= j < end ==> is_link_digit(#[trigger] text[j]),
        end == text.len() || !is_link_digit(text[end]),
    ensures
        digits_end(text, i) == end,
    decreases end - i,
{
    if i < end {
        lemma_digits_end(text, i + 1, end);
    }
}

/// Whether `marker` is one of the texts that come before the id of a link.
pub open spec fn is_marker(marker: Seq<char>) -> bool {
    ||| marker == "[sc-"@
    ||| marker == "/sc-"@
    ||| marker == "[ch"@
    ||| marker == "/ch"@
    ||| marker == "story/"@
}

/// At most one marker stands at a position.
proof fn lemma_marker_len(text: Seq<char>, i: int, marker: Seq<char>)
    requires
        is_marker(marker),
        stands_at(text, i, marker),
    ensures
        marker_len(text, i) == marker.len(),
        marker.len() > 0,
{
    reveal_strlit("[sc-");
    reveal_strlit("/sc-");
    reveal_strlit("[ch");
    reveal_strlit("/ch");
    reveal_strlit("story/");
    assert(text[i] == marker[0]) by {
        assert(text.subrange(i, i + marker.len())[0] == marker[0]);
    }
    assert(text[i + 1] == marker[1]) by {
        assert(text.subrange(i, i + marker.len())[1] == marker[1]);
    }
    if stands_at(text, i, "[sc-"@) {
        assert(text.subrange(i, i + 4)[1] == 's');
        assert(text.subrange(i, i + 4)[0] == '[');
    }
    if stands_at(text, i, "/sc-"@) {
        assert(text.subrange(i, i + 4)[1] == 's');
        assert(text.subrange(i, i + 4)[0] == '/');
    }
    if stands_at(text, i, "[ch"@) {
        assert(text.subrange(i, i + 3)[1] == 'c');
        assert(text.subrange(i, i + 3)[0] == '[');
    }
    if stands_at(text, i, "/ch"@) {
        assert(text.subrange(i, i + 3)[1] == 'c');
        assert(text.subrange(i, i + 3)[0] == '/');
    }
    if stands_at(text, i, "story/"@) {
        assert(text.subrange(i, i + 6)[0] == 's');
    }
}

/// A link to a story is found: a message whose first link consists of a marker
/// and the digits of a number belongs to the story of that number.
pub proof fn law_link_leads_to_story(
    before: Seq<char>,
    marker: Seq<char>,
    number: nat,
    after: Seq<char>,
)
    requires
        is_marker(marker),
        number <= i64::MAX,
        after.len() > 0 ==> !is_link_digit(after[0]),
        forall|j: int|
            0 <= j < before.len() ==> !link_at(before + marker + digits(number) + after, j),
    ensures
        story_id_of(Some(before + marker + digits(number) + after)) == Ok::<
            Option<int>,
            NumberError,
        >(Some(number as int)),
{
    let text = before + marker + digits(number) + after;
    let i = before.len() as int;
    let start = i + marker.len();
    let end = start + digits(number).len();
    law_digits_stand_for_number(number);
    law_written_signed_number_is_read_back(number as i64);
    assert(decimal(number as int) == digits(number));
    assert(text.subrange(i, i + marker.len()) == marker);
    lemma_marker_len(text, i, marker);
    assert forall|j: int| start <= j < end implies is_link_digit(#[trigger] text[j]) by {
        assert(text[j] == digits(number)[j - start]);
        assert(is_digit(digits(number)[j - start]));
    }
    if end < text.len() {
        assert(text[end] == after[0]);
    }
    lemma_digits_end(text, start, end);
    assert(link_at(text, i));
    law_first_link_is_first(text, 0);
    assert(text.subrange(start, end) == digits(number));
}

/// The text of a message is the whole message, and a commit without a message has
/// none.
pub proof fn law_message_text_is_the_message(text: String)
    ensures
        message_text(Some(text)) == Some(text@),
        message_text(None) is None,
{
}

/// Without a message there is no story.
pub proof fn law_no_message_no_story()
    ensures
        story_id_of(None) == Ok::<Option<int>, NumberError>(None),
{
}

/// A link starts exactly where one of the five markers stands with a digit behind it.
pub proof fn law_link_is_a_marker_and_a_digit(text: Seq<char>, i: int)
    ensures
        link_at(text, i) <==> exists|marker: Seq<char>|
            {
                &&& (marker == "[sc-"@ || marker == "/sc-"@ || marker == "[ch"@ || marker == "/ch"@
                    || marker == "story/"@)
                &&& 0 <= i
                &&& i + marker.len() < text.len()
                &&& #[trigger] text.subrange(i, i + marker.len()) == marker
                &&& (is_digit(text[i + marker.len()]) || (text[i + marker.len()] as int > 0x7f
                    && is_unicode_digit(text[i + marker.len()])))
            },
{
    if link_at(text, i) {
        let marker = text.subrange(i, i + marker_len(text, i));
        reveal_strlit("[sc-");
        reveal_strlit("/sc-");
        reveal_strlit("[ch");
        reveal_strlit("/ch");
        reveal_strlit("story/");
        assert(marker.len() == marker_len(text, i));
        assert(text.subrange(i, i + marker.len()) == marker);
    }
    if exists|marker: Seq<char>|
        {
            &&& (marker == "[sc-"@ || marker == "/sc-"@ || marker == "[ch"@ || marker == "/ch"@
                || marker == "story/"@)
            &&& 0 <= i
            &&& i + marker.len() < text.len()
            &&& #[trigger] text.subrange(i, i + marker.len()) == marker
            &&& (is_digit(text[i + marker.len()]) || (text[i + marker.len()] as int > 0x7f
                && is_unicode_digit(text[i + marker.len()])))
        } {
        let marker = choose|marker: Seq<char>|
            {
                &&& (marker == "[sc-"@ || marker == "/sc-"@ || marker == "[ch"@ || marker == "/ch"@
                    || marker == "story/"@)
                &&& 0 <= i
                &&& i + marker.len() < text.len()
                &&& #[trigger] text.subrange(i, i + marker.len()) == marker
                &&& (is_digit(text[i + marker.len()]) || (text[i + marker.len()] as int > 0x7f
                    && is_unicode_digit(text[i + marker.len()])))
            };
        lemma_marker_len(text, i, marker);
    }
}

/// The first link decides, by all its digits: a message belongs to the story whose
/// number they stand for, also where they start with zeros; an id that is too large
/// or not written in ASCII digits is an error. What follows the link does not matter.
pub proof fn law_first_link_decides(
    before: Seq<char>,
    marker: Seq<char>,
    id: Seq<char>,
    after: Seq<char>,
)
    requires
        marker == "[sc-"@ || marker == "/sc-"@ || marker == "[ch"@ || marker == "/ch"@ || marker
            == "story/"@,
        id.len() > 0,
        forall|j: int| 0 <= j < id.len() ==> is_link_digit(#[trigger] id[j]),
        after.len() > 0 ==> !is_link_digit(after[0]),
        forall|j: int| 0 <= j < before.len() ==> !link_at(before + marker + id + after, j),
    ensures
        all_digits(id) && value(id) <= i64::MAX ==> story_id_of(
            Some(before + marker + id + after),
        ) == Ok::<Option<int>, NumberError>(Some(value(id) as int)),
        all_digits(id) && value(id) > i64::MAX ==> story_id_of(Some(before + marker + id + after))
            == Err::<Option<int>, NumberError>(NumberError::TooLarge),
        !all_digits(id) ==> story_id_of(Some(before + marker + id + after)) is Err,
        forall|k: int|
            0 <= k < id.len() && all_digits(id.take(k)) && value(id.take(k)) <= i64::MAX
                && !is_digit(#[trigger] id[k]) ==> story_id_of(Some(before + marker + id + after))
                == Err::<Option<int>, NumberError>(NumberError::InvalidDigit),
{
    let text = before + marker + id + after;
    let i = before.len() as int;
    let start = i + marker.len();
    let end = start + id.len();
    assert(text.subrange(i, i + marker.len()) == marker);
    lemma_marker_len(text, i, marker);
    assert forall|j: int| start <= j < end implies is_link_digit(#[trigger] text[j]) by {
        assert(text[j] == id[j - start]);
    }
    if end < text.len() {
        assert(text[end] == after[0]);
    }
    lemma_digits_end(text, start, end);
    assert(link_at(text, i));
    law_first_link_is_first(text, 0);
    assert(text.subrange(start, end) == id);
    assert(linked_id(text) == Some(id));
    assert(is_link_digit(id[0]));
    law_digits_are_read(id, i64::MAX as nat);
    assert forall|k: int|
        0 <= k < id.len() && all_digits(id.take(k)) && value(id.take(k)) <= i64::MAX && !is_digit(
            #[trigger] id[k],
        ) implies story_id_of(Some(text)) == Err::<Option<int>, NumberError>(
        NumberError::InvalidDigit,
    ) by {
        law_signed_number_holds_digits_only(id, k);
    }
}

} // verus!
