//! The labels under which branches are offered for selection.
use vstd::prelude::*;
use vstd::string::StringExecFns;
use crate::branch::{
    at_most_one_head, branch_views, decoded, law_listing_in_name_order, lemma_listing_heads,
    listing, names, Branch, BranchView, RawBranchView,
};
use crate::order::name_le;
use crate::order::{lemma_name_le_antisymmetric, lemma_name_le_reflexive, name_precedes};

verus! {

/// The repository's default branch, which is never offered for deletion.
pub const DEFAULT_BRANCH: &'static str = "master";

/// The name of the default branch.
pub open spec fn default_branch_name() -> Seq<char> {
    seq!['m', 'a', 's', 't', 'e', 'r']
}

/// How a branch's label is decorated.
#[derive(Clone, Copy, Debug, PartialEq, Eq, Structural)]
pub enum LabelStyle {
    /// The checked-out branch: a leading marker and emphasis.
    Current,
    /// The default branch when it is not checked out: emphasis only.
    Default,
    /// Any other branch: the bare name.
    Plain,
}

/// The decoration that a branch's label carries.
pub open spec fn label_style(b: BranchView) -> LabelStyle {
    if b.head {
        LabelStyle::Current
    } else if b.name == default_branch_name() {
        LabelStyle::Default
    } else {
        LabelStyle::Plain
    }
}

/// The escape code that turns the foreground green.
pub open spec fn green_code() -> Seq<char> {
    seq!['\x1b', '[', '3', '2', 'm']
}

/// The escape code that resets all styling.
pub open spec fn reset_code() -> Seq<char> {
    seq!['\x1b', '[', '0', 'm']
}

/// The texts that emphasizing `text` may give: the text itself where the
/// terminal takes no colors, else the text in green.
pub open spec fn emphasized(text: Seq<char>, r: Seq<char>) -> bool {
    r == text || r == green_code() + text + reset_code()
}

/// The marker in front of the checked-out branch's label.
pub open spec fn marker() -> Seq<char> {
    seq!['*', ' ']
}

/// The labels that a branch may be shown under.
pub open spec fn is_label_of(b: BranchView, label: Seq<char>) -> bool {
    match label_style(b) {
        LabelStyle::Current => label.len() >= 2 && label.take(2) == marker() && emphasized(b.name, label.skip(2)),
        LabelStyle::Default => emphasized(b.name, label),
        LabelStyle::Plain => label == b.name,
    }
}

/// Relies on console's `style(..).green()` and its `Display`, which writes the
/// green code, the text and the reset code when colors are enabled for
/// standard output, and the bare text otherwise.
#[verifier::external_body]
fn emphasize(text: &str) -> (r: String)
    ensures
        emphasized(text@, r@),
{
    console::style(text).green().to_string()
}

/// Whether `name` is the default branch's name.
pub fn is_default_branch(name: &str) -> (r: bool)
    ensures
        r == (name@ == default_branch_name()),
{
    proof {
        reveal_strlit("master");
    }
    assert(DEFAULT_BRANCH@ == default_branch_name());
    let before = name_precedes(name, DEFAULT_BRANCH);
    let after = name_precedes(DEFAULT_BRANCH, name);
    proof {
        lemma_name_le_reflexive(name@);
        if before && after {
            lemma_name_le_antisymmetric(name@, DEFAULT_BRANCH@);
        }
    }
    before && after
}

/// The decoration of a branch's label.
pub fn style_of(branch: &Branch) -> (r: LabelStyle)
    ensures
        r == label_style(branch@),
{
    if branch.is_head() {
        LabelStyle::Current
    } else if is_default_branch(branch.name.as_str()) {
        LabelStyle::Default
    } else {
        LabelStyle::Plain
    }
}

/// The label of one branch.
pub fn label_of(branch: &Branch) -> (r: String)
    ensures
        is_label_of(branch@, r@),
{
    match style_of(branch) {
        LabelStyle::Current => {
            let styled = emphasize(branch.name.as_str());
            let r = String::from_str("* ").concat(styled.as_str());
            proof {
                reveal_strlit("* ");
                assert(r@.take(2) =~= marker());
                assert(r@.skip(2) =~= styled@);
            }
            r
        },
        LabelStyle::Default => emphasize(branch.name.as_str()),
        LabelStyle::Plain => branch.name.clone(),
    }
}

/// One label per branch, in the branches' order.
pub fn render_labels(branches: &Vec<Branch>) -> (r: Vec<String>)
    ensures
        r@.len() == branches@.len(),
        forall|i: int| 0 <= i < r@.len() ==> is_label_of(branch_views(branches@)[i], #[trigger] r@[i]@),
{
    let mut labels: Vec<String> = Vec::new();
    let mut i: usize = 0;
    while i < branches.len()
        invariant
            i <= branches@.len(),
            labels@.len() == i,
            forall|k: int| 0 <= k < i ==> is_label_of(branch_views(branches@)[k], #[trigger] labels@[k]@),
        decreases branches@.len() - i,
    {
        let label = label_of(&branches[i]);
        labels.push(label);
        i = i + 1;
    }
    labels
}

/// The checked-out branch is labelled with the marker and emphasis, and no
/// other branch carries the marker.
pub proof fn law_marker_on_current_only(s: Seq<BranchView>, labels: Seq<Seq<char>>)
    requires
        at_most_one_head(s),
        labels.len() == s.len(),
        forall|i: int| 0 <= i < s.len() ==> is_label_of(s[i], #[trigger] labels[i]),
    ensures
        forall|i: int| 0 <= i < s.len() && #[trigger] s[i].head ==> {
            &&& labels[i].take(2) == marker()
            &&& emphasized(s[i].name, labels[i].skip(2))
        },
        forall|i: int, j: int|
            0 <= i < s.len() && 0 <= j < s.len() && label_style(#[trigger] s[i]) == LabelStyle::Current
                && label_style(#[trigger] s[j]) == LabelStyle::Current ==> i == j,
{
    assert forall|i: int| 0 <= i < s.len() && #[trigger] s[i].head implies {
        &&& labels[i].take(2) == marker()
        &&& emphasized(s[i].name, labels[i].skip(2))
    } by {
        assert(is_label_of(s[i], labels[i]));
    }
}

/// The labels rendered for a listing come in lexicographic order of the
/// branch names: the label at each position is one of the branch whose name
/// stands at that position among all names sorted.
pub proof fn law_labels_in_name_order(raws: Seq<RawBranchView>, labels: Seq<Seq<char>>)
    requires
        labels.len() == listing(raws).len(),
        forall|i: int| 0 <= i < labels.len() ==> is_label_of(listing(raws)[i], #[trigger] labels[i]),
    ensures
        forall|i: int|
            0 <= i < labels.len() ==> {
                let sorted = names(raws.map_values(|r: RawBranchView| decoded(r))).sort_by(
                    |a: Seq<char>, b: Seq<char>| name_le(a, b),
                );
                &&& i < sorted.len()
                &&& listing(raws)[i].name == sorted[i]
                &&& is_label_of(listing(raws)[i], #[trigger] labels[i])
            },
{
    law_listing_in_name_order(raws);
    assert forall|i: int| 0 <= i < labels.len() implies listing(raws)[i].name == names(listing(raws))[i] by {}
}

/// Where at most one of the repository's branches is checked out, the labels
/// of its listing put the marker and emphasis on that branch and on no other.
pub proof fn law_single_marker_in_listing(raws: Seq<RawBranchView>, labels: Seq<Seq<char>>)
    requires
        forall|i: int, j: int|
            0 <= i < raws.len() && 0 <= j < raws.len() && #[trigger] raws[i].head && #[trigger] raws[j].head ==> i == j,
        labels.len() == listing(raws).len(),
        forall|i: int| 0 <= i < labels.len() ==> is_label_of(listing(raws)[i], #[trigger] labels[i]),
    ensures
        forall|i: int| 0 <= i < labels.len() && #[trigger] listing(raws)[i].head ==> {
            &&& labels[i].take(2) == marker()
            &&& emphasized(listing(raws)[i].name, labels[i].skip(2))
        },
        forall|i: int, j: int|
            0 <= i < labels.len() && 0 <= j < labels.len() && label_style(#[trigger] listing(raws)[i])
                == LabelStyle::Current && label_style(#[trigger] listing(raws)[j]) == LabelStyle::Current
                ==> i == j,
{
    lemma_listing_heads(raws);
    law_marker_on_current_only(listing(raws), labels);
}

} // verus!
