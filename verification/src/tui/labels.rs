//! The names that the screens show for categories and targets.

use vstd::prelude::*;
use vstd::string::StringExecFns;
use crate::rules::{Target, TargetView, ViolationCategory};
use crate::state;
use crate::state::CategoryCounts;
use crate::text;
use crate::tui::line;
use crate::tui::line::{Line, SpanView, Style};

verus! {

/// Every category in a stable display order.
pub open spec fn categories() -> Seq<ViolationCategory> {
    seq![
        ViolationCategory::TypeMismatch,
        ViolationCategory::SizeExceeded,
        ViolationCategory::MissingKey,
        ViolationCategory::TtlMissing,
        ViolationCategory::TtlWrongType,
        ViolationCategory::TtlMsMagnitude,
        ViolationCategory::TtlMalformed,
        ViolationCategory::TtlPastFiveYears,
    ]
}

/// Every category in a stable display order.
pub fn all_categories() -> (r: Vec<ViolationCategory>)
    ensures
        r@ == categories(),
{
    let mut r: Vec<ViolationCategory> = Vec::new();
    r.push(ViolationCategory::TypeMismatch);
    r.push(ViolationCategory::SizeExceeded);
    r.push(ViolationCategory::MissingKey);
    r.push(ViolationCategory::TtlMissing);
    r.push(ViolationCategory::TtlWrongType);
    r.push(ViolationCategory::TtlMsMagnitude);
    r.push(ViolationCategory::TtlMalformed);
    r.push(ViolationCategory::TtlPastFiveYears);
    assert(r@ =~= categories());
    r
}

/// The display order leaves no category out.
pub proof fn law_every_category_is_listed(category: ViolationCategory)
    ensures
        categories().contains(category),
{
    let i: int = match category {
        ViolationCategory::TypeMismatch => 0,
        ViolationCategory::SizeExceeded => 1,
        ViolationCategory::MissingKey => 2,
        ViolationCategory::TtlMissing => 3,
        ViolationCategory::TtlWrongType => 4,
        ViolationCategory::TtlMsMagnitude => 5,
        ViolationCategory::TtlMalformed => 6,
        ViolationCategory::TtlPastFiveYears => 7,
    };
    assert(categories()[i] == category);
}

/// The category as the screens name it.
pub open spec fn category_text(category: ViolationCategory) -> Seq<char> {
    match category {
        ViolationCategory::TypeMismatch => "Type mismatch"@,
        ViolationCategory::SizeExceeded => "Size exceeded"@,
        ViolationCategory::MissingKey => "Missing key"@,
        ViolationCategory::TtlMissing => "TTL missing"@,
        ViolationCategory::TtlWrongType => "TTL wrong type"@,
        ViolationCategory::TtlMsMagnitude => "TTL ms magnitude"@,
        ViolationCategory::TtlMalformed => "TTL malformed"@,
        ViolationCategory::TtlPastFiveYears => "TTL >5y past"@,
    }
}

/// The category as the screens name it.
pub fn category_label(category: ViolationCategory) -> (r: &'static str)
    ensures
        r@ == category_text(category),
{
    match category {
        ViolationCategory::TypeMismatch => "Type mismatch",
        ViolationCategory::SizeExceeded => "Size exceeded",
        ViolationCategory::MissingKey => "Missing key",
        ViolationCategory::TtlMissing => "TTL missing",
        ViolationCategory::TtlWrongType => "TTL wrong type",
        ViolationCategory::TtlMsMagnitude => "TTL ms magnitude",
        ViolationCategory::TtlMalformed => "TTL malformed",
        ViolationCategory::TtlPastFiveYears => "TTL >5y past",
    }
}

/// The target as the screens name it.
pub open spec fn target_text(target: TargetView) -> Seq<char> {
    match target {
        TargetView::Gsi(name) => "GSI "@ + name,
        TargetView::Lsi(name) => "LSI "@ + name,
        TargetView::Ttl => "TTL"@,
    }
}

/// The target as the screens name it.
pub fn target_label(target: &Target) -> (r: String)
    ensures
        r@ == target_text(target@),
{
    match target {
        Target::Gsi(name) => {
            let mut out = "GSI ".to_owned();
            out.append(name.as_str());
            out
        },
        Target::Lsi(name) => {
            let mut out = "LSI ".to_owned();
            out.append(name.as_str());
            out
        },
        Target::Ttl => "TTL".to_owned(),
    }
}

/// The line with the count of one category.
pub open spec fn count_line(
    counts: Map<ViolationCategory, u64>,
    category: ViolationCategory,
) -> Seq<SpanView> {
    line::styled(
        "  "@ + text::padded(category_text(category), 20) + " "@ + text::decimal(
            state::count_of(counts, category) as nat,
        ),
        Style::Plain,
    )
}

/// The lines with the counts of all categories.
pub open spec fn count_lines(counts: Map<ViolationCategory, u64>) -> Seq<Seq<SpanView>> {
    categories().map_values(|category: ViolationCategory| count_line(counts, category))
}

/// Adds the lines with the counts of all categories.
pub fn push_count_lines(lines: &mut Vec<Line>, counts: &CategoryCounts)
    ensures
        line::line_views(final(lines)@) == line::line_views(old(lines)@) + count_lines(counts@),
{
    let ghost before = line::line_views(lines@);
    let ghost all = count_lines(counts@);
    let categories = all_categories();
    let mut i: usize = 0;
    while i < categories.len()
        invariant
            i <= categories@.len(),
            categories@ == self::categories(),
            all == count_lines(counts@),
            line::line_views(lines@) =~= before + all.take(i as int),
        decreases categories@.len() - i,
    {
        let category = categories[i];
        let count: u64 = match counts.get(category) {
            Some(n) => n,
            None => 0,
        };
        let mut content = "  ".to_owned();
        text::push_padded(&mut content, category_label(category), 20);
        content.append(" ");
        text::push_decimal(&mut content, count as u128);
        line::push_line(lines, Line::styled(content, Style::Plain));
        assert(all.take(i + 1) =~= all.take(i as int).push(all[i as int]));
        i += 1;
    }
    assert(all.take(i as int) =~= all);
}

/// Every category is listed once, and no two are shown under one name.
pub proof fn law_categories_are_told_apart(category: ViolationCategory, other: ViolationCategory)
    ensures
        categories().len() == 8,
        forall|i: int, j: int|
            0 <= i < j < 8 ==> #[trigger] categories()[i] != #[trigger] categories()[j],
        category_text(category) == category_text(other) ==> category == other,
{
    reveal_strlit("Type mismatch");
    reveal_strlit("Size exceeded");
    reveal_strlit("Missing key");
    reveal_strlit("TTL missing");
    reveal_strlit("TTL wrong type");
    reveal_strlit("TTL ms magnitude");
    reveal_strlit("TTL malformed");
    reveal_strlit("TTL >5y past");
    let a = category_text(category);
    let b = category_text(other);
    assert(a == b ==> a.len() == b.len() && a[0] == b[0] && a[1] == b[1] && a[4] == b[4]);
}

/// A target is shown with its kind in front of its name, so that no two are shown
/// alike.
pub proof fn law_targets_are_told_apart(target: TargetView, other: TargetView)
    ensures
        target is Gsi ==> target_text(target) == "GSI "@ + target->Gsi_0,
        target is Lsi ==> target_text(target) == "LSI "@ + target->Lsi_0,
        target is Ttl ==> target_text(target) == "TTL"@,
        target_text(target) == target_text(other) ==> target == other,
{
    reveal_strlit("GSI ");
    reveal_strlit("LSI ");
    reveal_strlit("TTL");
    let a = target_text(target);
    let b = target_text(other);
    if a == b {
        assert(a[0] == b[0]);
        match (target, other) {
            (TargetView::Gsi(x), TargetView::Gsi(y)) => {
                assert(x =~= a.skip(4));
                assert(y =~= b.skip(4));
            },
            (TargetView::Lsi(x), TargetView::Lsi(y)) => {
                assert(x =~= a.skip(4));
                assert(y =~= b.skip(4));
            },
            _ => {},
        }
    }
}

/// Every category has a line of its own with its name and its own count, a zero where
/// nothing was counted.
pub proof fn law_every_count_is_shown(
    counts: Map<ViolationCategory, u64>,
    category: ViolationCategory,
)
    ensures
        count_lines(counts).len() == 8,
        exists|i: int|
            {
                &&& 0 <= i < 8
                &&& #[trigger] categories()[i] == category
                &&& count_lines(counts)[i].len() == 1
                &&& text::holds(
                    count_lines(counts)[i][0].text,
                    text::padded(category_text(category), 20) + " "@ + text::decimal(
                        if counts.contains_key(category) {
                            counts[category] as nat
                        } else {
                            0
                        },
                    ),
                )
            },
{
    law_every_category_is_listed(category);
    let i = choose|i: int| 0 <= i < categories().len() && categories()[i] == category;
    let shown = count_lines(counts)[i];
    assert(shown == count_line(counts, category));
    lemma_count_text(
        text::padded(category_text(category), 20),
        text::decimal(state::count_of(counts, category) as nat),
    );
    assert(shown.len() == 1);
}

proof fn lemma_count_text(name: Seq<char>, count: Seq<char>)
    ensures
        text::holds("  "@ + name + " "@ + count, name + " "@ + count),
{
    let none = Seq::<char>::empty();
    let part = name + " "@ + count;
    text::lemma_joined("  "@, name, " "@);
    text::lemma_joined("  "@, name + " "@, count);
    assert("  "@ + part + none =~= "  "@ + part);
    text::lemma_holds("  "@, part, none);
}

} // verus!
