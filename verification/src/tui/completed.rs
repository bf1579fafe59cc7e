//! Completed scan screen.
//!
//! A static, browsable summary of a finished scan: final counts per category, the
//! paths of the export files, and a list of the last violations. Navigation moves a
//! selection over the list.

use vstd::prelude::*;
use vstd::string::StringExecFns;
use crate::rules::{Violation, ViolationView};
use crate::state::StateSnapshot;
use crate::text;
use crate::tui::labels;
use crate::tui::line;
use crate::tui::line::{Line, Panel, PanelView, SpanView, Style};

verus! {

/// Height of the summary with its frame, in cells.
pub const SUMMARY_HEIGHT: u16 = 16;

/// The completed scan screen. Owns the selection; all data is read from the final
/// [`StateSnapshot`] and the export paths.
#[derive(Debug)]
pub struct CompletedScreen {
    selected: usize,
    violation_count: usize,
}

/// The mathematical value of a [`CompletedScreen`].
pub struct Selection {
    pub selected: nat,
    pub count: nat,
}

impl Selection {
    /// One further down, but not beyond the last violation.
    pub open spec fn down(self) -> Selection {
        Selection {
            selected: if self.selected + 1 < self.count {
                self.selected + 1
            } else {
                self.selected
            },
            count: self.count,
        }
    }

    /// One further up, but not beyond the first violation.
    pub open spec fn up(self) -> Selection {
        Selection {
            selected: if self.selected > 0 {
                (self.selected - 1) as nat
            } else {
                0
            },
            count: self.count,
        }
    }

    /// The selection is on a violation, or at the start if there is none.
    pub open spec fn in_range(self) -> bool {
        self.selected < self.count || self.selected == 0
    }
}

/// The selection never leaves the list, whichever way it is moved.
pub proof fn law_selection_stays_in_range(selection: Selection)
    requires
        selection.in_range(),
    ensures
        selection.down().in_range(),
        selection.up().in_range(),
        selection.selected + 1 < selection.count ==> selection.down().up() == selection,
        selection.selected > 0 ==> selection.up().down() == selection,
{
}

impl View for CompletedScreen {
    type V = Selection;

    closed spec fn view(&self) -> Selection {
        Selection { selected: self.selected as nat, count: self.violation_count as nat }
    }
}

impl CompletedScreen {
    #[verifier::type_invariant]
    spec fn well_formed(self) -> bool {
        self@.in_range()
    }

    /// The screen for a finished scan whose rolling window holds `violation_count`
    /// violations.
    pub fn new(violation_count: usize) -> (r: Self)
        ensures
            r@ == (Selection { selected: 0, count: violation_count as nat }),
    {
        CompletedScreen { selected: 0, violation_count }
    }

    /// Moves the selection down one, stopping at the last violation.
    pub fn select_next(&mut self)
        ensures
            final(self)@ == old(self)@.down(),
    {
        proof {
            use_type_invariant(&*self);
        }
        if self.violation_count > 0 && self.selected < self.violation_count - 1 {
            self.selected = self.selected + 1;
        }
    }

    /// Moves the selection up one, stopping at the first violation.
    pub fn select_prev(&mut self)
        ensures
            final(self)@ == old(self)@.up(),
    {
        proof {
            use_type_invariant(&*self);
        }
        self.selected = self.selected.saturating_sub(1);
    }

    /// The index of the highlighted violation.
    pub fn selected(&self) -> (r: usize)
        ensures
            r == self@.selected,
            self@.in_range(),
    {
        proof {
            use_type_invariant(self);
        }
        self.selected
    }
}

/// The lines with the export paths.
pub open spec fn path_lines(paths: Seq<String>) -> Seq<Seq<SpanView>> {
    if paths.len() == 0 {
        seq![line::styled("  (export disabled)"@, Style::Plain)]
    } else {
        paths.map_values(|path: String| line::styled("  "@ + path@, Style::Plain))
    }
}

/// The summary panel.
pub open spec fn summary_of(snapshot: StateSnapshot, paths: Seq<String>) -> PanelView {
    PanelView {
        title: " Scan complete "@,
        border: Style::Plain,
        lines: seq![
            line::styled(
                "Scanned "@ + text::decimal(snapshot.items_scanned as nat) + " items · "@
                    + text::decimal(snapshot.total_violations as nat) + " violations total"@,
                Style::Plain,
            ),
            line::styled(Seq::empty(), Style::Plain),
            line::styled("Violations by category"@, Style::Section),
        ] + labels::count_lines(snapshot.category_counts@) + seq![
            line::styled(Seq::empty(), Style::Plain),
            line::styled("Export files"@, Style::Section),
        ] + path_lines(paths),
    }
}

/// The line of one violation: target, category and attribute.
pub open spec fn violation_spans(violation: ViolationView) -> Seq<SpanView> {
    seq![
        line::span(labels::target_text(violation.target), Style::Accent),
        line::span(" · "@, Style::Plain),
        line::span(labels::category_text(violation.category), Style::Plain),
    ] + (match violation.attribute {
        Some(attribute) => seq![line::span("  attr `"@ + attribute + "`"@, Style::Plain)],
        None => Seq::empty(),
    })
}

fn violation_line(violation: &Violation) -> (r: Line)
    ensures
        r@ == violation_spans(violation@),
{
    let mut r = Line::new();
    r.push(labels::target_label(&violation.target), Style::Accent);
    r.push(" · ".to_owned(), Style::Plain);
    r.push(labels::category_label(violation.category).to_owned(), Style::Plain);
    if let Some(attribute) = &violation.attribute {
        let mut content = "  attr `".to_owned();
        content.append(attribute.as_str());
        content.append("`");
        r.push(content, Style::Plain);
    }
    assert(r@ =~= violation_spans(violation@));
    r
}

/// The list panel.
pub open spec fn list_of(snapshot: StateSnapshot) -> PanelView {
    let violations = snapshot.recent_violations@;
    PanelView {
        title: " Recent violations ("@ + text::decimal(violations.len()) + ") "@,
        border: Style::Plain,
        lines: if violations.len() == 0 {
            seq![line::styled("No violations found."@, Style::Success)]
        } else {
            violations.map_values(|violation: Violation| violation_spans(violation@))
        },
    }
}

/// The line of the list to highlight, if the list holds violations.
pub open spec fn highlighted(selection: Selection, count: nat) -> Option<nat> {
    if count == 0 {
        None
    } else if selection.selected < count {
        Some(selection.selected)
    } else {
        Some((count - 1) as nat)
    }
}

impl CompletedScreen {
    /// The summary: counts per category and export paths.
    pub fn summary_panel(&self, snapshot: &StateSnapshot, paths: &Vec<String>) -> (r: Panel)
        ensures
            r@ == summary_of(*snapshot, paths@),
    {
        let mut lines = line::no_lines();
        let mut head = "Scanned ".to_owned();
        text::push_decimal(&mut head, snapshot.items_scanned as u128);
        head.append(" items · ");
        text::push_decimal(&mut head, snapshot.total_violations as u128);
        head.append(" violations total");
        line::push_line(&mut lines, Line::styled(head, Style::Plain));
        let blank = String::new();
        assert(blank@ =~= Seq::empty());
        line::push_line(&mut lines, Line::styled(blank, Style::Plain));
        line::push_line(
            &mut lines,
            Line::styled("Violations by category".to_owned(), Style::Section),
        );
        labels::push_count_lines(&mut lines, &snapshot.category_counts);
        let blank = String::new();
        assert(blank@ =~= Seq::empty());
        line::push_line(&mut lines, Line::styled(blank, Style::Plain));
        line::push_line(&mut lines, Line::styled("Export files".to_owned(), Style::Section));

        let ghost before = line::line_views(lines@);
        let ghost rows = path_lines(paths@);
        if paths.len() == 0 {
            line::push_line(
                &mut lines,
                Line::styled("  (export disabled)".to_owned(), Style::Plain),
            );
        } else {
            let mut i: usize = 0;
            while i < paths.len()
                invariant
                    i <= paths@.len(),
                    paths@.len() > 0,
                    rows == path_lines(paths@),
                    line::line_views(lines@) =~= before + rows.take(i as int),
                decreases paths@.len() - i,
            {
                let mut content = "  ".to_owned();
                content.append(paths[i].as_str());
                line::push_line(&mut lines, Line::styled(content, Style::Plain));
                assert(rows.take(i + 1) =~= rows.take(i as int).push(rows[i as int]));
                i += 1;
            }
        }
        assert(line::line_views(lines@) =~= before + rows);
        assert(line::line_views(lines@) =~= summary_of(*snapshot, paths@).lines);
        Panel { title: " Scan complete ".to_owned(), border: Style::Plain, lines }
    }

    /// The list of violations, and the line to highlight.
    pub fn list_panel(&self, snapshot: &StateSnapshot) -> (r: (Panel, Option<usize>))
        ensures
            r.0@ == list_of(*snapshot),
            match r.1 {
                Some(at) => highlighted(self@, snapshot.recent_violations@.len()) == Some(
                    at as nat,
                ),
                None => highlighted(self@, snapshot.recent_violations@.len()) is None,
            },
    {
        let count: usize = snapshot.recent_violations.len();
        let mut title = " Recent violations (".to_owned();
        text::push_decimal(&mut title, count as u128);
        title.append(") ");
        let mut lines = line::no_lines();
        if count == 0 {
            line::push_line(
                &mut lines,
                Line::styled("No violations found.".to_owned(), Style::Success),
            );
            assert(line::line_views(lines@) =~= list_of(*snapshot).lines);
            return (Panel { title, border: Style::Plain, lines }, None);
        }
        let ghost rows = list_of(*snapshot).lines;
        let mut i: usize = 0;
        while i < count
            invariant
                i <= count == snapshot.recent_violations@.len(),
                count > 0,
                rows == list_of(*snapshot).lines,
                line::line_views(lines@) =~= rows.take(i as int),
            decreases count - i,
        {
            line::push_line(&mut lines, violation_line(&snapshot.recent_violations[i]));
            assert(rows.take(i + 1) =~= rows.take(i as int).push(rows[i as int]));
            i += 1;
        }
        assert(rows.take(i as int) =~= rows);
        let at: usize = if self.selected < count {
            self.selected
        } else {
            count - 1
        };
        (Panel { title, border: Style::Plain, lines }, Some(at))
    }
}

/// The summary shows the totals, a line for every category, and every export path in
/// order, or that there is none.
#[verifier::rlimit(30)]
pub proof fn law_summary_shows_totals_and_paths(snapshot: StateSnapshot, paths: Seq<String>)
    ensures
        text::holds(
            summary_of(snapshot, paths).lines[0][0].text,
            text::decimal(snapshot.items_scanned as nat) + " items · "@,
        ),
        text::holds(
            summary_of(snapshot, paths).lines[0][0].text,
            text::decimal(snapshot.total_violations as nat) + " violations total"@,
        ),
        forall|k: int|
            0 <= k < 8 ==> #[trigger] summary_of(snapshot, paths).lines[3 + k]
                == labels::count_line(snapshot.category_counts@, labels::categories()[k]),
        paths.len() == 0 ==> summary_of(snapshot, paths).lines.len() == 14 && summary_of(
            snapshot,
            paths,
        ).lines[13][0].text == "  (export disabled)"@,
        paths.len() > 0 ==> summary_of(snapshot, paths).lines.len() == 13 + paths.len() && forall|
            k: int,
        |
            0 <= k < paths.len() ==> (#[trigger] summary_of(snapshot, paths).lines[13 + k])[0].text
                == "  "@ + paths[k]@,
{
    let head = summary_of(snapshot, paths).lines[0][0].text;
    let items = text::decimal(snapshot.items_scanned as nat) + " items · "@;
    let total = text::decimal(snapshot.total_violations as nat) + " violations total"@;
    text::lemma_holds("Scanned "@, items, total);
    assert(head =~= "Scanned "@ + items + total);
    text::lemma_holds("Scanned "@ + items, total, Seq::empty());
    assert(head =~= "Scanned "@ + items + total + Seq::<char>::empty());
    assert(labels::categories().len() == 8);
}

/// The list has a line for every recent violation, in order, with its target, its
/// category and the attribute if it names one; an empty list says so.
pub proof fn law_list_shows_every_violation(snapshot: StateSnapshot, k: int)
    ensures
        snapshot.recent_violations@.len() == 0 ==> list_of(snapshot).lines.len() == 1 && list_of(
            snapshot,
        ).lines[0][0].text == "No violations found."@,
        snapshot.recent_violations@.len() > 0 ==> list_of(snapshot).lines.len()
            == snapshot.recent_violations@.len(),
        0 <= k < snapshot.recent_violations@.len() ==> {
            let violation = snapshot.recent_violations@[k]@;
            let shown = list_of(snapshot).lines[k];
            &&& shown[0].text == labels::target_text(violation.target)
            &&& shown[2].text == labels::category_text(violation.category)
            &&& violation.attribute is None ==> shown.len() == 3
            &&& violation.attribute is Some ==> shown.len() == 4 && shown[3].text == "  attr `"@
                + violation.attribute->0 + "`"@
        },
{
}

/// The highlighted line is the selected one, and always a line of the list.
pub proof fn law_highlight_is_on_the_list(selection: Selection, count: nat)
    ensures
        count == 0 ==> highlighted(selection, count) is None,
        count > 0 ==> highlighted(selection, count) is Some && highlighted(selection, count)->0
            < count,
        selection.selected < count ==> highlighted(selection, count) == Some(selection.selected),
        count > 0 && selection.selected >= count ==> highlighted(selection, count)->0 + 1 == count,
{
}

/// A selection moves by at most one line, in the direction asked for, and a step in a
/// direction is refused only at that end of the list.
pub proof fn law_selection_moves_by_one(selection: Selection)
    requires
        selection.in_range(),
    ensures
        selection.down().count == selection.count,
        selection.up().count == selection.count,
        selection.down().selected == selection.selected + 1 || (selection.down() == selection
            && selection.selected + 1 >= selection.count),
        selection.up().selected == selection.selected - 1 || (selection.up() == selection
            && selection.selected == 0),
{
}

} // verus!
