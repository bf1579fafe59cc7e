//! In-flight scan screen.
//!
//! Shows live scan progress from a [`StateSnapshot`]: a fixed header of aggregate
//! figures over a body of counts per category and progress bars per segment. A
//! request to cancel raises a confirmation that the screen owns.

use vstd::prelude::*;
use vstd::string::StringExecFns;
use crate::state::StateSnapshot;
use crate::text;
use crate::tui::labels;
use crate::tui::line;
use crate::tui::line::{Line, Panel, PanelView, SpanView, Style};

verus! {

/// Width of the per-segment progress bars, in cells.
pub const BAR_WIDTH: usize = 24;

/// Height of the header with its frame, in cells.
pub const HEADER_HEIGHT: u16 = 6;

/// Width of the cancel confirmation, in cells.
pub const CANCEL_WIDTH: u16 = 48;

/// Height of the cancel confirmation, in cells.
pub const CANCEL_HEIGHT: u16 = 5;

/// The in-flight scan screen. Holds only transient state; all progress data is read
/// from a [`StateSnapshot`].
#[derive(Debug)]
pub struct InFlightScreen {
    confirming_cancel: bool,
}

impl View for InFlightScreen {
    type V = bool;

    /// Whether the confirmation is showing.
    closed spec fn view(&self) -> bool {
        self.confirming_cancel
    }
}

impl Default for InFlightScreen {
    fn default() -> (r: Self)
        ensures
            !r@,
    {
        InFlightScreen { confirming_cancel: false }
    }
}

impl InFlightScreen {
    pub fn new() -> (r: Self)
        ensures
            !r@,
    {
        Self::default()
    }

    /// Raises the cancel confirmation.
    pub fn request_cancel(&mut self)
        ensures
            final(self)@,
    {
        self.confirming_cancel = true;
    }

    /// Dismisses the confirmation, keeping the scan running.
    pub fn dismiss_cancel(&mut self)
        ensures
            !final(self)@,
    {
        self.confirming_cancel = false;
    }

    /// True while the confirmation is showing.
    pub fn is_confirming_cancel(&self) -> (r: bool)
        ensures
            r == self@,
    {
        self.confirming_cancel
    }
}

/// The figures of the header that are not whole numbers, as they are shown.
#[derive(Debug, Clone, PartialEq)]
pub struct HeaderFigures {
    /// The progress in percent.
    pub percent: i64,
    pub items_per_sec: String,
    pub rcu_per_sec: String,
    pub rcu_used: String,
}

/// A span of whole seconds in hours, minutes and seconds.
pub open spec fn duration_text(secs: nat) -> Seq<char> {
    let h = secs / 3600;
    let m = secs % 3600 / 60;
    let s = secs % 60;
    if h > 0 {
        text::decimal(h) + "h"@ + text::two_digits(m) + "m"@ + text::two_digits(s) + "s"@
    } else if m > 0 {
        text::decimal(m) + "m"@ + text::two_digits(s) + "s"@
    } else {
        text::decimal(s) + "s"@
    }
}

/// A span of whole seconds in hours, minutes and seconds.
pub fn fmt_duration(secs: u128) -> (r: String)
    ensures
        r@ == duration_text(secs as nat),
{
    let h: u128 = secs / 3600;
    let m: u128 = secs % 3600 / 60;
    let s: u128 = secs % 60;
    let mut out = String::new();
    if h > 0 {
        text::push_decimal(&mut out, h);
        out.append("h");
        text::push_two_digits(&mut out, m as u64);
        out.append("m");
        text::push_two_digits(&mut out, s as u64);
    } else if m > 0 {
        text::push_decimal(&mut out, m);
        out.append("m");
        text::push_two_digits(&mut out, s as u64);
    } else {
        text::push_decimal(&mut out, s);
    }
    out.append("s");
    assert(out@ =~= duration_text(secs as nat));
    out
}

/// An estimate in nanoseconds as it is shown: a dash while there is none.
pub open spec fn eta_text(eta: Option<u128>) -> Seq<char> {
    match eta {
        Some(nanos) => duration_text(nanos as nat / 1_000_000_000),
        None => "—"@,
    }
}

/// An estimate in nanoseconds as it is shown.
pub fn fmt_eta(eta: Option<u128>) -> (r: String)
    ensures
        r@ == eta_text(eta),
{
    match eta {
        Some(nanos) => fmt_duration(nanos / 1_000_000_000),
        None => "—".to_owned(),
    }
}

/// How many cells of a bar are filled: the share of the target, rounded to the
/// nearest cell and at most all of them.
pub open spec fn filled_cells(value: nat, target: nat) -> nat {
    if value >= target {
        BAR_WIDTH as nat
    } else {
        (2 * BAR_WIDTH as nat * value + target) / (2 * target)
    }
}

/// A progress bar: indeterminate without a target.
pub open spec fn bar_text(value: nat, target: nat) -> Seq<char> {
    if target == 0 {
        text::repeated('─', BAR_WIDTH as nat)
    } else {
        "["@ + text::repeated('█', filled_cells(value, target)) + text::repeated(
            '░',
            (BAR_WIDTH - filled_cells(value, target)) as nat,
        ) + "]"@
    }
}

/// A bar never overflows; it is empty at nothing and full at the target and beyond.
pub proof fn law_bar_fills_up_to_the_target(value: nat, target: nat)
    requires
        target > 0,
    ensures
        filled_cells(value, target) <= BAR_WIDTH,
        filled_cells(0, target) == 0,
        value >= target ==> filled_cells(value, target) == BAR_WIDTH,
{
    if value < target {
        let top = 48 * value + target;
        let low = 2 * target;
        assert(top < 49 * target) by (nonlinear_arith)
            requires
                top == 48 * value + target,
                value < target,
        ;
        assert(top / low <= 24) by (nonlinear_arith)
            requires
                low == 2 * target,
                0 <= top < 49 * target,
                target > 0,
        ;
    }
    assert((48 * 0 + target) / (2 * target) == 0) by (nonlinear_arith)
        requires
            target > 0,
    ;
}

/// A progress bar of a segment.
pub fn bar(value: u64, target: u64) -> (r: String)
    ensures
        r@ == bar_text(value as nat, target as nat),
{
    let mut out = String::new();
    if target == 0 {
        text::push_repeated(&mut out, '─', BAR_WIDTH);
        assert(out@ =~= bar_text(value as nat, target as nat));
        return out;
    }
    proof {
        law_bar_fills_up_to_the_target(value as nat, target as nat);
    }
    let filled: usize = if value >= target {
        BAR_WIDTH
    } else {
        let cells: u128 = (48 * value as u128 + target as u128) / (2 * target as u128);
        assert(cells == filled_cells(value as nat, target as nat));
        cells as usize
    };
    out.append("[");
    text::push_repeated(&mut out, '█', filled);
    text::push_repeated(&mut out, '░', BAR_WIDTH - filled);
    out.append("]");
    assert(out@ =~= bar_text(value as nat, target as nat));
    out
}

/// The items that a segment is expected to hold: the approximate count spread evenly,
/// zero if it is unknown.
pub open spec fn target_of(item_count: nat, segments: nat) -> nat {
    if segments == 0 {
        0
    } else {
        item_count / segments
    }
}

fn segment_target(snapshot: &StateSnapshot) -> (r: u64)
    ensures
        r == target_of(snapshot.item_count as nat, snapshot.per_segment_items@.len()),
{
    let segments: usize = snapshot.per_segment_items.len();
    if segments == 0 {
        return 0;
    }
    snapshot.item_count / segments as u64
}

/// A figure with its label in front.
pub open spec fn stat_line(label: Seq<char>, value: Seq<char>) -> Seq<SpanView> {
    seq![
        line::span(text::padded(label, 16), Style::Muted),
        line::span(value, Style::Plain),
    ]
}

fn stat(label: &str, value: String) -> (r: Line)
    ensures
        r@ == stat_line(label@, value@),
{
    let mut padded = String::new();
    text::push_padded(&mut padded, label, 16);
    assert(padded@ =~= text::padded(label@, 16));
    let mut r = Line::new();
    r.push(padded, Style::Muted);
    r.push(value, Style::Plain);
    assert(r@ =~= stat_line(label@, value@));
    r
}

/// The header panel.
pub open spec fn header_of(snapshot: StateSnapshot, figures: HeaderFigures) -> PanelView {
    let items = text::decimal(snapshot.items_scanned as nat);
    PanelView {
        title: " Scan in progress "@,
        border: Style::Plain,
        lines: seq![
            stat_line(
                "Items scanned"@,
                items + "  ("@ + items + " of ~"@ + text::decimal(snapshot.item_count as nat)
                    + ", "@ + "~"@ + text::signed_decimal(figures.percent as int) + "%"@ + ")"@,
            ),
            stat_line(
                "Throughput"@,
                figures.items_per_sec@ + " items/s · "@ + figures.rcu_per_sec@ + " RCU/s"@,
            ),
            stat_line(
                "Violations"@,
                text::decimal(snapshot.total_violations as nat) + " total"@,
            ),
            stat_line(
                "Time"@,
                duration_text(snapshot.elapsed as nat / 1_000_000_000) + " elapsed · "@
                    + eta_text(snapshot.eta) + " remaining · "@ + figures.rcu_used@
                    + " RCU used"@,
            ),
        ],
    }
}

/// The line of one segment.
pub open spec fn segment_line(segment: nat, items: nat, target: nat) -> Seq<SpanView> {
    line::styled(
        "  #"@ + text::padded(text::decimal(segment), 3) + " "@ + bar_text(items, target) + "  "@
            + text::decimal(items),
        Style::Plain,
    )
}

/// The body panel.
pub open spec fn body_of(snapshot: StateSnapshot) -> PanelView {
    let segments = snapshot.per_segment_items@;
    let target = target_of(snapshot.item_count as nat, segments.len());
    PanelView {
        title: " Progress "@,
        border: Style::Plain,
        lines: seq![line::styled("Violations by category"@, Style::Section)]
            + labels::count_lines(snapshot.category_counts@) + seq![
            line::styled(Seq::empty(), Style::Plain),
            line::styled(
                "Segments ("@ + text::decimal(segments.len()) + ")"@,
                Style::Section,
            ),
        ] + Seq::new(
            segments.len(),
            |i: int| segment_line(i as nat, segments[i] as nat, target),
        ),
    }
}

/// The cancel confirmation.
pub open spec fn cancel_modal() -> PanelView {
    PanelView {
        title: " Cancel scan? "@,
        border: Style::Accent,
        lines: seq![
            line::styled("Partial export files are kept on disk."@, Style::Plain),
            line::styled("[y] cancel scan     [n] keep scanning"@, Style::Strong),
        ],
    }
}

impl InFlightScreen {
    /// The header: the aggregate figures.
    pub fn header_panel(&self, snapshot: &StateSnapshot, figures: &HeaderFigures) -> (r: Panel)
        ensures
            r@ == header_of(*snapshot, *figures),
    {
        let mut lines = line::no_lines();

        let mut items = text::decimal_text(snapshot.items_scanned as u128);
        items.append("  (");
        text::push_decimal(&mut items, snapshot.items_scanned as u128);
        items.append(" of ~");
        text::push_decimal(&mut items, snapshot.item_count as u128);
        items.append(", ");
        items.append("~");
        items.append(text::signed_decimal_text(figures.percent).as_str());
        items.append("%");
        items.append(")");
        line::push_line(&mut lines, stat("Items scanned", items));

        let mut throughput = figures.items_per_sec.clone();
        throughput.append(" items/s · ");
        throughput.append(figures.rcu_per_sec.as_str());
        throughput.append(" RCU/s");
        line::push_line(&mut lines, stat("Throughput", throughput));

        let mut violations = text::decimal_text(snapshot.total_violations as u128);
        violations.append(" total");
        line::push_line(&mut lines, stat("Violations", violations));

        let mut time = fmt_duration(snapshot.elapsed as u128 / 1_000_000_000);
        time.append(" elapsed · ");
        time.append(fmt_eta(snapshot.eta).as_str());
        time.append(" remaining · ");
        time.append(figures.rcu_used.as_str());
        time.append(" RCU used");
        line::push_line(&mut lines, stat("Time", time));

        assert(line::line_views(lines@) =~= header_of(*snapshot, *figures).lines);
        Panel { title: " Scan in progress ".to_owned(), border: Style::Plain, lines }
    }

    /// The body: counts per category and a bar per segment.
    pub fn body_panel(&self, snapshot: &StateSnapshot) -> (r: Panel)
        ensures
            r@ == body_of(*snapshot),
    {
        let mut lines = line::no_lines();
        line::push_line(
            &mut lines,
            Line::styled("Violations by category".to_owned(), Style::Section),
        );
        labels::push_count_lines(&mut lines, &snapshot.category_counts);
        let blank = String::new();
        assert(blank@ =~= Seq::empty());
        line::push_line(&mut lines, Line::styled(blank, Style::Plain));
        let mut title = "Segments (".to_owned();
        text::push_decimal(&mut title, snapshot.per_segment_items.len() as u128);
        title.append(")");
        line::push_line(&mut lines, Line::styled(title, Style::Section));

        let target = segment_target(snapshot);
        let ghost before = line::line_views(lines@);
        let ghost rows = Seq::new(
            snapshot.per_segment_items@.len(),
            |i: int|
                segment_line(i as nat, snapshot.per_segment_items@[i] as nat, target as nat),
        );
        let mut i: usize = 0;
        while i < snapshot.per_segment_items.len()
            invariant
                i <= snapshot.per_segment_items@.len(),
                rows == Seq::new(
                    snapshot.per_segment_items@.len(),
                    |i: int|
                        segment_line(
                            i as nat,
                            snapshot.per_segment_items@[i] as nat,
                            target as nat,
                        ),
                ),
                line::line_views(lines@) =~= before + rows.take(i as int),
            decreases snapshot.per_segment_items@.len() - i,
        {
            let items: u64 = snapshot.per_segment_items[i];
            let mut content = "  #".to_owned();
            text::push_padded(&mut content, text::decimal_text(i as u128).as_str(), 3);
            content.append(" ");
            content.append(bar(items, target).as_str());
            content.append("  ");
            text::push_decimal(&mut content, items as u128);
            line::push_line(&mut lines, Line::styled(content, Style::Plain));
            assert(rows.take(i + 1) =~= rows.take(i as int).push(rows[i as int]));
            i += 1;
        }
        assert(line::line_views(lines@) =~= body_of(*snapshot).lines);
        Panel { title: " Progress ".to_owned(), border: Style::Plain, lines }
    }

    /// The cancel confirmation, while it is showing.
    pub fn modal(&self) -> (r: Option<Panel>)
        ensures
            match r {
                Some(panel) => self@ && panel@ == cancel_modal(),
                None => !self@,
            },
    {
        if !self.confirming_cancel {
            return None;
        }
        let mut lines = line::no_lines();
        line::push_line(
            &mut lines,
            Line::styled("Partial export files are kept on disk.".to_owned(), Style::Plain),
        );
        line::push_line(
            &mut lines,
            Line::styled("[y] cancel scan     [n] keep scanning".to_owned(), Style::Strong),
        );
        assert(line::line_views(lines@) =~= cancel_modal().lines);
        Some(Panel { title: " Cancel scan? ".to_owned(), border: Style::Accent, lines })
    }
}

/// The filled part of a bar is the share of the target that was reached, to within
/// half a cell of twenty-four.
pub proof fn law_bar_is_proportional(value: nat, target: nat)
    requires
        value < target,
    ensures
        2 * filled_cells(value, target) * target <= 48 * value + target,
        48 * value + target < 2 * filled_cells(value, target) * target + 2 * target,
{
    let top = 48 * value + target;
    let low = 2 * target;
    let cells = filled_cells(value, target);
    assert(cells == top / low);
    assert(2 * (top / low) * target <= top < 2 * (top / low) * target + 2 * target)
        by (nonlinear_arith)
        requires
            low == 2 * target,
            target > 0,
            top >= 0,
    ;
}

/// A bar is twenty-four cells between brackets, first those that are filled and then
/// those that are not; without a target it is a line of the same width.
pub proof fn law_bar_has_one_width(value: nat, target: nat)
    ensures
        target == 0 ==> bar_text(value, target).len() == 24 && forall|k: int|
            0 <= k < 24 ==> #[trigger] bar_text(value, target)[k] == '─',
        target > 0 ==> {
            &&& bar_text(value, target).len() == 26
            &&& bar_text(value, target)[0] == '['
            &&& bar_text(value, target)[25] == ']'
            &&& forall|k: int|
                1 <= k <= 24 ==> #[trigger] bar_text(value, target)[k] == (if k <= filled_cells(
                    value,
                    target,
                ) {
                    '█'
                } else {
                    '░'
                })
        },
{
    reveal_strlit("[");
    reveal_strlit("]");
    if target > 0 {
        law_bar_fills_up_to_the_target(value, target);
    }
}

/// A span is shown in hours, minutes and seconds that add up to it, with the larger
/// units left out where they are zero.
pub proof fn law_duration_adds_up(secs: nat)
    ensures
        exists|h: nat, m: nat, s: nat|
            {
                &&& secs == 3600 * h + 60 * m + s
                &&& m < 60
                &&& s < 60
                &&& duration_text(secs) == #[trigger] clock_text(h, m, s)
            },
{
    let h = secs / 3600;
    let m = secs % 3600 / 60;
    let s = secs % 60;
    assert(secs == 3600 * h + 60 * m + s);
    assert(duration_text(secs) == clock_text(h, m, s));
}

/// Hours, minutes and seconds as text.
pub open spec fn clock_text(h: nat, m: nat, s: nat) -> Seq<char> {
    if h == 0 && m == 0 {
        text::decimal(s) + "s"@
    } else if h == 0 {
        text::decimal(m) + "m"@ + text::two_digits(s) + "s"@
    } else {
        text::decimal(h) + "h"@ + text::two_digits(m) + "m"@ + text::two_digits(s) + "s"@
    }
}

/// An estimate is shown in the whole seconds that it holds, and as a dash while there
/// is none.
pub proof fn law_estimate_is_shown_in_seconds(nanos: u128, secs: nat)
    requires
        secs * 1_000_000_000 <= nanos < (secs + 1) * 1_000_000_000,
    ensures
        eta_text(Some(nanos)) == duration_text(secs),
        eta_text(None) == "—"@,
{
    assert(nanos as nat / 1_000_000_000 == secs);
}

/// The approximate count is spread evenly over the segments: the shares fall short of
/// it by less than one item for each. Without segments there is no share.
pub proof fn law_shares_are_even(item_count: nat, segments: nat)
    ensures
        segments > 0 ==> target_of(item_count, segments) * segments <= item_count < (target_of(
            item_count,
            segments,
        ) + 1) * segments,
        target_of(item_count, 0) == 0,
{
    if segments > 0 {
        let q = item_count / segments;
        assert(q * segments <= item_count < (q + 1) * segments) by (nonlinear_arith)
            requires
                segments > 0,
                q == item_count / segments,
        ;
    }
}

/// The header shows the figures of the scan: the items, the approximate count and the
/// percentage, the throughput, the violations, and the time elapsed and remaining.
#[verifier::rlimit(30)]
pub proof fn law_header_shows_the_figures(snapshot: StateSnapshot, figures: HeaderFigures)
    ensures
        header_of(snapshot, figures).lines.len() == 4,
        forall|i: int|
            0 <= i < 4 ==> (#[trigger] header_of(snapshot, figures).lines[i]).len() == 2,
        text::holds(
            header_of(snapshot, figures).lines[0][1].text,
            text::decimal(snapshot.items_scanned as nat) + " of ~"@ + text::decimal(
                snapshot.item_count as nat,
            ),
        ),
        text::holds(
            header_of(snapshot, figures).lines[0][1].text,
            "~"@ + text::signed_decimal(figures.percent as int) + "%"@,
        ),
        text::holds(
            header_of(snapshot, figures).lines[1][1].text,
            figures.items_per_sec@ + " items/s · "@,
        ),
        text::holds(
            header_of(snapshot, figures).lines[1][1].text,
            figures.rcu_per_sec@ + " RCU/s"@,
        ),
        text::holds(
            header_of(snapshot, figures).lines[2][1].text,
            text::decimal(snapshot.total_violations as nat),
        ),
        text::holds(
            header_of(snapshot, figures).lines[3][1].text,
            duration_text(snapshot.elapsed as nat / 1_000_000_000) + " elapsed · "@,
        ),
        text::holds(
            header_of(snapshot, figures).lines[3][1].text,
            eta_text(snapshot.eta) + " remaining · "@,
        ),
        text::holds(
            header_of(snapshot, figures).lines[3][1].text,
            figures.rcu_used@ + " RCU used"@,
        ),
{
    let none = Seq::<char>::empty();
    let items = text::decimal(snapshot.items_scanned as nat);
    let count = text::decimal(snapshot.item_count as nat);
    let percent = text::signed_decimal(figures.percent as int);
    let first = header_of(snapshot, figures).lines[0][1].text;
    text::lemma_holds(
        items + "  ("@,
        items + " of ~"@ + count,
        ", "@ + "~"@ + percent + "%"@ + ")"@,
    );
    assert(first =~= items + "  ("@ + (items + " of ~"@ + count) + (", "@ + "~"@ + percent + "%"@
        + ")"@));
    text::lemma_holds(
        items + "  ("@ + items + " of ~"@ + count + ", "@,
        "~"@ + percent + "%"@,
        ")"@,
    );
    assert(first =~= items + "  ("@ + items + " of ~"@ + count + ", "@ + ("~"@ + percent + "%"@)
        + ")"@);
    let second = header_of(snapshot, figures).lines[1][1].text;
    let rate = figures.items_per_sec@;
    let units = figures.rcu_per_sec@;
    text::lemma_holds(none, rate + " items/s · "@, units + " RCU/s"@);
    assert(second =~= none + (rate + " items/s · "@) + (units + " RCU/s"@));
    text::lemma_holds(rate + " items/s · "@, units + " RCU/s"@, none);
    assert(second =~= rate + " items/s · "@ + (units + " RCU/s"@) + none);
    let third = header_of(snapshot, figures).lines[2][1].text;
    let total = text::decimal(snapshot.total_violations as nat);
    text::lemma_holds(none, total, " total"@);
    assert(third =~= none + total + " total"@);
    let fourth = header_of(snapshot, figures).lines[3][1].text;
    let elapsed = duration_text(snapshot.elapsed as nat / 1_000_000_000) + " elapsed · "@;
    let left = eta_text(snapshot.eta) + " remaining · "@;
    let used = figures.rcu_used@ + " RCU used"@;
    text::lemma_holds(none, elapsed, left + used);
    assert(fourth =~= none + elapsed + (left + used));
    text::lemma_holds(elapsed, left, used);
    assert(fourth =~= elapsed + left + used);
    text::lemma_holds(elapsed + left, used, none);
    assert(fourth =~= elapsed + left + used + none);
}

/// The body has a line for every category and then one for every segment, in order:
/// its number, its bar over an even share of the count, and its own items.
#[verifier::rlimit(30)]
pub proof fn law_body_shows_every_segment(snapshot: StateSnapshot, i: int)
    requires
        0 <= i < snapshot.per_segment_items@.len(),
    ensures
        body_of(snapshot).lines.len() == 11 + snapshot.per_segment_items@.len(),
        body_of(snapshot).lines[11 + i].len() == 1,
        text::holds(
            body_of(snapshot).lines[11 + i][0].text,
            "  #"@ + text::padded(text::decimal(i as nat), 3),
        ),
        text::holds(
            body_of(snapshot).lines[11 + i][0].text,
            bar_text(
                snapshot.per_segment_items@[i] as nat,
                snapshot.item_count as nat / snapshot.per_segment_items@.len(),
            ) + "  "@ + text::decimal(snapshot.per_segment_items@[i] as nat),
        ),
        forall|k: int|
            0 <= k < 8 ==> #[trigger] body_of(snapshot).lines[1 + k] == labels::count_line(
                snapshot.category_counts@,
                labels::categories()[k],
            ),
{
    let segments = snapshot.per_segment_items@;
    let items = segments[i] as nat;
    let target = target_of(snapshot.item_count as nat, segments.len());
    let number = text::padded(text::decimal(i as nat), 3);
    let shown = body_of(snapshot).lines[11 + i];
    assert(labels::categories().len() == 8);
    assert(shown == segment_line(i as nat, items, target));
    lemma_segment_text(number, bar_text(items, target), text::decimal(items));
}

proof fn lemma_segment_text(number: Seq<char>, bar: Seq<char>, items: Seq<char>)
    ensures
        text::holds("  #"@ + number + " "@ + bar + "  "@ + items, "  #"@ + number),
        text::holds("  #"@ + number + " "@ + bar + "  "@ + items, bar + "  "@ + items),
{
    let start = "  #"@ + number;
    let none = Seq::<char>::empty();
    let rest = " "@ + bar + "  "@ + items;
    text::lemma_joined(start, " "@, bar);
    text::lemma_joined(start, " "@ + bar, "  "@);
    text::lemma_joined(start, " "@ + bar + "  "@, items);
    assert(none + start =~= start);
    text::lemma_holds(none, start, rest);
    let tail = bar + "  "@ + items;
    text::lemma_joined(start + " "@, bar, "  "@);
    text::lemma_joined(start + " "@, bar + "  "@, items);
    assert(start + " "@ + tail + none =~= start + " "@ + tail);
    text::lemma_holds(start + " "@, tail, none);
}

} // verus!
