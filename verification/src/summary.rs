//! The summary of a release for the terminal.

use crate::commits::UnreleasedCommit;
use crate::decimal::digits;
use crate::decimal::write_number;
use crate::release::Release;
use crate::repositories::RepoMap;
use vstd::prelude::*;
use vstd::string::*;

verus! {

/// The colours of the summary.
#[derive(Clone, Copy, Debug, PartialEq, Eq, Structural)]
pub enum SummaryColour {
    /// For names of repositories.
    Blue,
    /// For what is part of the release.
    Green,
    /// For what calls for attention.
    Red,
}

/// `text` between the terminal's codes for a style and for the end of all styles.
pub open spec fn styled(code: Seq<char>, text: Seq<char>) -> Seq<char> {
    seq!['\u{1b}', '['] + code + seq!['m'] + text + seq!['\u{1b}', '[', '0', 'm']
}

/// `text` in bold.
pub open spec fn bold(text: Seq<char>) -> Seq<char> {
    styled(seq!['1'], text)
}

/// `text` in a colour.
pub open spec fn coloured(colour: SummaryColour, text: Seq<char>) -> Seq<char> {
    styled(
        match colour {
            SummaryColour::Blue => seq!['3', '4'],
            SummaryColour::Green => seq!['3', '2'],
            SummaryColour::Red => seq!['3', '1'],
        },
        text,
    )
}

/// Paints `text` in bold.
///
/// Calls `ansi_term::Style::paint` on the style that is bold and nothing else, and
/// writes the result out. What is claimed is what the crate writes for such a
/// style: the escape code of bold, the text as it is, and the code that resets
/// all styles.
#[verifier::external_body]
fn paint_bold(text: &str) -> (painted: String)
    ensures
        painted@ == bold(text@),
{
    ansi_term::Style::new().bold().paint(text).to_string()
}

/// Paints `text` in a colour.
///
/// Calls `ansi_term::Colour::paint` and writes the result out. What is claimed is
/// what the crate writes for a colour of the foreground: the escape code of the
/// colour, the text as it is, and the code that resets all styles.
#[verifier::external_body]
fn paint_coloured(colour: SummaryColour, text: &str) -> (painted: String)
    ensures
        painted@ == coloured(colour, text@),
{
    let colour = match colour {
        SummaryColour::Blue => ansi_term::Colour::Blue,
        SummaryColour::Green => ansi_term::Colour::Green,
        SummaryColour::Red => ansi_term::Colour::Red,
    };
    colour.paint(text).to_string()
}

/// The line about the number of unparsed commits in a repository, after an empty
/// line; nothing when there are none.
pub open spec fn unparsed_line(repo: Seq<char>, commits: nat) -> Seq<char> {
    if commits == 0 {
        seq![]
    } else {
        "\n"@ + bold("Total unparsed commits in "@) + coloured(SummaryColour::Blue, repo) + ": "@
            + coloured(SummaryColour::Red, digits(commits)) + "\n"@
    }
}

/// The lines about the first `n` repositories.
pub open spec fn unparsed_lines(
    unparsed: Seq<(String, Vec<UnreleasedCommit>)>,
    n: int,
) -> Seq<char>
    decreases n,
{
    if n <= 0 {
        seq![]
    } else {
        unparsed_lines(unparsed, n - 1) + unparsed_line(
            unparsed[n - 1].0@,
            unparsed[n - 1].1@.len(),
        )
    }
}

/// The summary of a release with so many stories and epics.
pub open spec fn summary_text(
    stories: nat,
    epics: nat,
    unparsed: Seq<(String, Vec<UnreleasedCommit>)>,
) -> Seq<char> {
    bold("Total stories"@) + ": "@ + coloured(SummaryColour::Green, digits(stories)) + "\n"@ + "\n"@
        + bold("Total epics"@) + ": "@ + coloured(SummaryColour::Green, digits(epics)) + "\n"@
        + unparsed_lines(unparsed, unparsed.len() as int)
}

/// The lines about unparsed commits.
fn describe_unparsed(unparsed: &RepoMap<Vec<UnreleasedCommit>>) -> (lines: String)
    ensures
        lines@ == unparsed_lines(unparsed.entries(), unparsed.entries().len() as int),
{
    let mut lines = String::new();
    let mut i: usize = 0;
    while i < unparsed.len()
        invariant
            i <= unparsed.entries().len(),
            lines@ == unparsed_lines(unparsed.entries(), i as int),
        decreases unparsed.entries().len() - i,
    {
        let ghost before = lines@;
        let count = unparsed.value(i).len();
        if count != 0 {
            lines.append("\n");
            lines.append(paint_bold("Total unparsed commits in ").as_str());
            lines.append(paint_coloured(SummaryColour::Blue, unparsed.name(i)).as_str());
            lines.append(": ");
            lines.append(
                paint_coloured(SummaryColour::Red, write_number(count as u64).as_str()).as_str(),
            );
            lines.append("\n");
        }
        assert(lines@ == before + unparsed_line(
            unparsed.entries()[i as int].0@,
            unparsed.entries()[i as int].1@.len(),
        ));
        i = i + 1;
    }
    lines
}

/// The summary of `release`: how many stories and epics it has, and how many
/// commits of each repository belong to no story.
pub fn summary<D, E>(release: &Release<D, E>) -> (text: String)
    ensures
        text@ == summary_text(
            release.stories@.len(),
            release.epics@.len(),
            release.unparsed_commits.entries(),
        ),
{
    let mut text = paint_bold("Total stories");
    text.append(": ");
    text.append(
        paint_coloured(
            SummaryColour::Green,
            write_number(release.stories.len() as u64).as_str(),
        ).as_str(),
    );
    text.append("\n");
    text.append("\n");
    text.append(paint_bold("Total epics").as_str());
    text.append(": ");
    text.append(
        paint_coloured(
            SummaryColour::Green,
            write_number(release.epics.len() as u64).as_str(),
        ).as_str(),
    );
    text.append("\n");
    text.append(describe_unparsed(&release.unparsed_commits).as_str());
    text
}

/// A repository without unparsed commits leaves no trace in the summary.
pub proof fn law_empty_repository_is_not_mentioned(
    stories: nat,
    epics: nat,
    before: Seq<(String, Vec<UnreleasedCommit>)>,
    entry: (String, Vec<UnreleasedCommit>),
    after: Seq<(String, Vec<UnreleasedCommit>)>,
)
    requires
        entry.1@.len() == 0,
    ensures
        summary_text(stories, epics, before + seq![entry] + after) == summary_text(
            stories,
            epics,
            before + after,
        ),
{
    lemma_lines_of_two_parts(before + seq![entry], after, after.len() as int);
    lemma_lines_of_two_parts(before, seq![entry], 1);
    lemma_lines_of_two_parts(before, after, after.len() as int);
    assert(unparsed_lines(seq![entry], 1) =~= seq![]) by {
        reveal_with_fuel(unparsed_lines, 2);
    }
    assert(unparsed_lines(before + seq![entry], before.len() as int + 1) =~= unparsed_lines(
        before,
        before.len() as int,
    ));
}

/// The lines about two groups of repositories are those about the one, then those
/// about the other.
proof fn lemma_lines_of_two_parts(
    a: Seq<(String, Vec<UnreleasedCommit>)>,
    b: Seq<(String, Vec<UnreleasedCommit>)>,
    n: int,
)
    requires
        0 <= n <= b.len(),
    ensures
        unparsed_lines(a + b, a.len() + n) == unparsed_lines(a, a.len() as int) + unparsed_lines(
            b,
            n,
        ),
    decreases n,
{
    if n > 0 {
        lemma_lines_of_two_parts(a, b, n - 1);
        assert((a + b)[a.len() + n - 1] == b[n - 1]);
        assert(unparsed_lines(a + b, a.len() + n) =~= unparsed_lines(a, a.len() as int)
            + unparsed_lines(b, n));
    } else {
        lemma_lines_of_first_part(a, b, a.len() as int);
        assert(unparsed_lines(a + b, a.len() + n) =~= unparsed_lines(a, a.len() as int)
            + unparsed_lines(b, n));
    }
}

/// The lines about the first repositories do not depend on the later ones.
proof fn lemma_lines_of_first_part(
    a: Seq<(String, Vec<UnreleasedCommit>)>,
    b: Seq<(String, Vec<UnreleasedCommit>)>,
    n: int,
)
    requires
        n <= a.len(),
    ensures
        unparsed_lines(a + b, n) == unparsed_lines(a, n),
    decreases n,
{
    if n > 0 {
        lemma_lines_of_first_part(a, b, n - 1);
    }
}

/// What the summary says of a release whose every commit belongs to a story: its
/// stories and its epics, by their numbers.
pub proof fn law_summary_tells_both_numbers(stories: nat, epics: nat)
    ensures
        summary_text(stories, epics, seq![]) == "\u{1b}[1mTotal stories\u{1b}[0m: \u{1b}[32m"@
            + digits(stories) + "\u{1b}[0m\n\n\u{1b}[1mTotal epics\u{1b}[0m: \u{1b}[32m"@ + digits(
            epics,
        ) + "\u{1b}[0m\n"@,
{
    reveal_strlit("\u{1b}[1mTotal stories\u{1b}[0m: \u{1b}[32m");
    reveal_strlit("\u{1b}[0m\n\n\u{1b}[1mTotal epics\u{1b}[0m: \u{1b}[32m");
    reveal_strlit("\u{1b}[0m\n");
    reveal_strlit("Total stories");
    reveal_strlit("Total epics");
    reveal_strlit(": ");
    reveal_strlit("\n");
    assert(summary_text(stories, epics, seq![])
        =~= "\u{1b}[1mTotal stories\u{1b}[0m: \u{1b}[32m"@ + digits(stories)
        + "\u{1b}[0m\n\n\u{1b}[1mTotal epics\u{1b}[0m: \u{1b}[32m"@ + digits(epics)
        + "\u{1b}[0m\n"@);
}

/// A repository with unparsed commits adds its line to what the summary says without
/// it: its name, and how many they are.
pub proof fn law_repository_adds_its_line(
    stories: nat,
    epics: nat,
    before: Seq<(String, Vec<UnreleasedCommit>)>,
    entry: (String, Vec<UnreleasedCommit>),
)
    requires
        entry.1@.len() > 0,
    ensures
        summary_text(stories, epics, before.push(entry)) == summary_text(stories, epics, before)
            + "\n\u{1b}[1mTotal unparsed commits in \u{1b}[0m\u{1b}[34m"@ + entry.0@
            + "\u{1b}[0m: \u{1b}[31m"@ + digits(entry.1@.len()) + "\u{1b}[0m\n"@,
{
    let all = before.push(entry);
    let line = "\n\u{1b}[1mTotal unparsed commits in \u{1b}[0m\u{1b}[34m"@ + entry.0@
        + "\u{1b}[0m: \u{1b}[31m"@ + digits(entry.1@.len()) + "\u{1b}[0m\n"@;
    assert(unparsed_line(entry.0@, entry.1@.len()) =~= line) by {
        reveal_strlit("\n\u{1b}[1mTotal unparsed commits in \u{1b}[0m\u{1b}[34m");
        reveal_strlit("\u{1b}[0m: \u{1b}[31m");
        reveal_strlit("\u{1b}[0m\n");
        reveal_strlit("Total unparsed commits in ");
        reveal_strlit(": ");
        reveal_strlit("\n");
    }
    assert(all == before + seq![entry]);
    lemma_lines_of_first_part(before, seq![entry], before.len() as int);
    assert(all[before.len() as int] == entry);
    assert(unparsed_lines(all, all.len() as int) == unparsed_lines(before, before.len() as int)
        + line);
    assert(summary_text(stories, epics, all) =~= summary_text(stories, epics, before) + line);
    assert(summary_text(stories, epics, before) + line =~= summary_text(stories, epics, before)
        + "\n\u{1b}[1mTotal unparsed commits in \u{1b}[0m\u{1b}[34m"@ + entry.0@
        + "\u{1b}[0m: \u{1b}[31m"@ + digits(entry.1@.len()) + "\u{1b}[0m\n"@);
}

} // verus!
