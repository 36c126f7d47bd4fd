//! The text of a run summary.

use crate::number::{decimal_text, is_digit, law_written_counts_are_read_back, lemma_decimal_text, write_count};
use crate::stats::RunSummary;
use crate::text::chars_of;
use vstd::prelude::*;

verus! {

/// `text` behind as many spaces as bring it to `width` characters.
pub open spec fn right_aligned(text: Seq<char>, width: nat) -> Seq<char> {
    if text.len() >= width {
        text
    } else {
        Seq::new((width - text.len()) as nat, |i: int| ' ') + text
    }
}

/// Aligns `text` to the right of a column `width` characters wide.
pub fn right_align(text: &str, width: usize) -> (r: String)
    ensures
        r@ == right_aligned(text@, width as nat),
{
    let length: usize = chars_of(text).len();
    let mut aligned = String::new();
    let mut column: usize = length;
    while column < width
        invariant
            length == text@.len(),
            length <= column,
            length <= width ==> column <= width,
            length >= width ==> column == length,
            aligned@ == Seq::new((column - length) as nat, |i: int| ' '),
        decreases width - column,
    {
        proof {
            reveal_strlit(" ");
            assert(aligned@ + " "@ =~= Seq::new((column + 1 - length) as nat, |i: int| ' '));
        }
        aligned.append(" ");
        column = column + 1;
    }
    aligned.append(text);
    assert(aligned@ =~= right_aligned(text@, width as nat));
    aligned
}

/// The figures of a summary that are not whole numbers, written with the decimals they are shown
/// with.
#[derive(Debug)]
pub struct Figures {
    /// How long the run took, in seconds.
    pub duration: String,
    /// The CPU time that it took, in seconds.
    pub cpu_time: String,
    /// The CPU time as a percentage of the duration.
    pub core_share: String,
    /// The working set, in MiB.
    pub working_set: String,
    /// The largest working set, in MiB.
    pub peak_working_set: String,
    /// The private working set, in MiB.
    pub private_working_set: String,
    /// The records per second.
    pub record_rate: String,
    /// The CPU time per record, in nanoseconds.
    pub record_cost: String,
}

/// A line of the summary for `figure`, with what stands before and behind it.
pub open spec fn figure_line(label: Seq<char>, figure: Seq<char>, unit: Seq<char>) -> Seq<char> {
    label + right_aligned(figure, 10) + unit
}

/// The lines on the records that were uploaded.
pub open spec fn records_lines(records: Option<u64>, figures: Figures) -> Seq<char> {
    match records {
        None => "  log_records_uploaded : <unavailable>\n"@,
        Some(n) => figure_line("  log_records_uploaded : "@, decimal_text(n as nat), " ("@)
            + right_aligned(figures.record_rate@, 9) + "/s)\n"@ + figure_line(
            "  cpu_time per record  : "@,
            figures.record_cost@,
            " ns/log\n"@,
        ),
    }
}

/// The summary block: an empty line, a title, and a line for each figure.
pub open spec fn summary_block(records: Option<u64>, figures: Figures) -> Seq<char> {
    "\n=== Run summary ===\n"@ + figure_line(
        "  duration             : "@,
        figures.duration@,
        " s\n"@,
    ) + figure_line("  cpu_time             : "@, figures.cpu_time@, " s ("@) + right_aligned(
        figures.core_share@,
        5,
    ) + "% of one core)\n"@ + figure_line(
        "  rss (working set)    : "@,
        figures.working_set@,
        " MiB\n"@,
    ) + figure_line("  peak working set     : "@, figures.peak_working_set@, " MiB\n"@)
        + figure_line("  private working set  : "@, figures.private_working_set@, " MiB\n"@)
        + records_lines(records, figures)
}

/// Appends a line for `figure`.
fn append_figure(block: &mut String, label: &str, figure: &str, unit: &str)
    ensures
        final(block)@ == old(block)@ + figure_line(label@, figure@, unit@),
{
    block.append(label);
    block.append(right_align(figure, 10).as_str());
    block.append(unit);
    assert(block@ =~= old(block)@ + figure_line(label@, figure@, unit@));
}

impl RunSummary {
    /// The summary block, with `figures` for what is not a whole number.
    pub fn text(&self, figures: &Figures) -> (r: String)
        ensures
            r@ == summary_block(self.records, *figures),
    {
        let mut block = "\n=== Run summary ===\n".to_owned();
        append_figure(&mut block, "  duration             : ", figures.duration.as_str(), " s\n");
        append_figure(&mut block, "  cpu_time             : ", figures.cpu_time.as_str(), " s (");
        block.append(right_align(figures.core_share.as_str(), 5).as_str());
        block.append("% of one core)\n");
        append_figure(
            &mut block,
            "  rss (working set)    : ",
            figures.working_set.as_str(),
            " MiB\n",
        );
        append_figure(
            &mut block,
            "  peak working set     : ",
            figures.peak_working_set.as_str(),
            " MiB\n",
        );
        append_figure(
            &mut block,
            "  private working set  : ",
            figures.private_working_set.as_str(),
            " MiB\n",
        );
        let ghost before = block@;
        match self.records {
            None => {
                block.append("  log_records_uploaded : <unavailable>\n");
            },
            Some(n) => {
                append_figure(
                    &mut block,
                    "  log_records_uploaded : ",
                    write_count(n).as_str(),
                    " (",
                );
                block.append(right_align(figures.record_rate.as_str(), 9).as_str());
                block.append("/s)\n");
                append_figure(
                    &mut block,
                    "  cpu_time per record  : ",
                    figures.record_cost.as_str(),
                    " ns/log\n",
                );
            },
        }
        assert(block@ =~= before + records_lines(self.records, *figures));
        block
    }
}

/// Aligned text is the text itself at the end, and nothing but spaces before it; it is as wide as
/// the column, or as the text where that is wider.
pub proof fn law_alignment(text: &str, width: usize, r: String)
    requires
        call_ensures(right_align, (text, width), r),
    ensures
        text@.len() >= width ==> r@ == text@,
        text@.len() < width ==> r@.len() == width && r@.skip(width - text@.len()) == text@ && (
        forall|i: int| 0 <= i < width - text@.len() ==> #[trigger] r@[i] == ' '),
{
    if text@.len() < width {
        assert(r@.skip(width - text@.len()) =~= text@);
    }
}

/// A run summary is a title and a line for each figure, in a fixed order, with the figures as they
/// were given, each aligned in its column; the last lines tell the records, or that they are not
/// known.
pub proof fn law_summary_line_by_line(summary: RunSummary, figures: Figures, r: String)
    requires
        call_ensures(RunSummary::text, (&summary, &figures), r),
    ensures
        ({
            let aligned = |text: Seq<char>, width: nat|
                if text.len() >= width {
                    text
                } else {
                    Seq::new((width - text.len()) as nat, |i: int| ' ') + text
                };
            let first = seq!['\n'] + "=== Run summary ===\n"@ + (
            "  duration             : "@ + aligned(figures.duration@, 10) + " s\n"@) + (
            "  cpu_time             : "@ + aligned(figures.cpu_time@, 10) + " s ("@ + aligned(
                figures.core_share@,
                5,
            ) + "% of one core)\n"@) + ("  rss (working set)    : "@ + aligned(
                figures.working_set@,
                10,
            ) + " MiB\n"@) + ("  peak working set     : "@ + aligned(
                figures.peak_working_set@,
                10,
            ) + " MiB\n"@) + ("  private working set  : "@ + aligned(
                figures.private_working_set@,
                10,
            ) + " MiB\n"@);
            &&& summary.records is None ==> r@ == first
                + "  log_records_uploaded : <unavailable>\n"@
            &&& summary.records matches Some(n) ==> r@ == first + ("  log_records_uploaded : "@
                + aligned(decimal_text(n as nat), 10) + " ("@ + aligned(figures.record_rate@, 9)
                + "/s)\n"@) + ("  cpu_time per record  : "@ + aligned(figures.record_cost@, 10)
                + " ns/log\n"@)
        }),
{
    reveal_strlit("\n=== Run summary ===\n");
    reveal_strlit("=== Run summary ===\n");
    assert("\n=== Run summary ===\n"@ =~= seq!['\n'] + "=== Run summary ===\n"@);
    let aligned = |text: Seq<char>, width: nat|
        if text.len() >= width {
            text
        } else {
            Seq::new((width - text.len()) as nat, |i: int| ' ') + text
        };
    assert forall|text: Seq<char>, width: nat| #[trigger]
        right_aligned(text, width) == aligned(text, width) by {
        assert(right_aligned(text, width) =~= aligned(text, width));
    }
    let first = seq!['\n'] + "=== Run summary ===\n"@ + ("  duration             : "@ + aligned(
        figures.duration@,
        10,
    ) + " s\n"@) + ("  cpu_time             : "@ + aligned(figures.cpu_time@, 10) + " s ("@
        + aligned(figures.core_share@, 5) + "% of one core)\n"@) + (
    "  rss (working set)    : "@ + aligned(figures.working_set@, 10) + " MiB\n"@) + (
    "  peak working set     : "@ + aligned(figures.peak_working_set@, 10) + " MiB\n"@) + (
    "  private working set  : "@ + aligned(figures.private_working_set@, 10) + " MiB\n"@);
    let records = match summary.records {
        None => "  log_records_uploaded : <unavailable>\n"@,
        Some(n) => ("  log_records_uploaded : "@ + aligned(decimal_text(n as nat), 10) + " ("@
            + aligned(figures.record_rate@, 9) + "/s)\n"@) + ("  cpu_time per record  : "@
            + aligned(figures.record_cost@, 10) + " ns/log\n"@),
    };
    assert(records_lines(summary.records, figures) =~= records);
    assert(r@ =~= first + records);
    if let Some(n) = summary.records {
        assert(first + records =~= first + ("  log_records_uploaded : "@ + aligned(
            decimal_text(n as nat),
            10,
        ) + " ("@ + aligned(figures.record_rate@, 9) + "/s)\n"@) + ("  cpu_time per record  : "@
            + aligned(figures.record_cost@, 10) + " ns/log\n"@));
    }
}

/// Different numbers of records look different in their column.
pub proof fn law_summaries_tell_their_records(n: u64, m: u64)
    ensures
        right_aligned(decimal_text(n as nat), 10) == right_aligned(decimal_text(m as nat), 10)
            ==> n == m,
{
    let a = decimal_text(n as nat);
    let b = decimal_text(m as nat);
    if right_aligned(a, 10) == right_aligned(b, 10) {
        lemma_decimal_text(n as nat);
        lemma_decimal_text(m as nat);
        assert(is_digit(a[0]) && is_digit(b[0]));
        lemma_aligned_apart(a, b);
        law_written_counts_are_read_back(n);
        law_written_counts_are_read_back(m);
    }
}

/// Texts that begin with no space are told apart when they are aligned.
proof fn lemma_aligned_apart(a: Seq<char>, b: Seq<char>)
    requires
        a.len() > 0,
        b.len() > 0,
        a[0] != ' ',
        b[0] != ' ',
        right_aligned(a, 10) == right_aligned(b, 10),
    ensures
        a == b,
{
    let x = right_aligned(a, 10);
    let i: int = if a.len() >= 10 {
        0
    } else {
        10 - a.len()
    };
    let j: int = if b.len() >= 10 {
        0
    } else {
        10 - b.len()
    };
    assert(x.skip(i) =~= a);
    assert(right_aligned(b, 10).skip(j) =~= b);
    assert(x[i] == a[0]);
    assert(right_aligned(b, 10)[j] == b[0]);
    if i < j {
        assert(right_aligned(b, 10)[i] == ' ');
    } else if j < i {
        assert(x[j] == ' ');
    }
}

} // verus!
