//! Trees of data, as they stand in a compose file.
use crate::formats::Duplicate;
use vstd::prelude::*;

verus! {

/// A tree of data. A number is kept as it is written; a tag stands in front of what it marks.
#[derive(Debug, PartialEq)]
pub enum Tree {
    Null,
    Bool(bool),
    Number(String),
    Text(String),
    Sequence(Vec<Tree>),
    Mapping(Vec<(Tree, Tree)>),
    Tagged(String, Box<Tree>),
}

/// What a tree says.
pub enum TreeView {
    Null,
    Bool(bool),
    Number(Seq<char>),
    Text(Seq<char>),
    Sequence(Seq<TreeView>),
    Mapping(Seq<(TreeView, TreeView)>),
    Tagged(Seq<char>, Box<TreeView>),
}

/// What a tree says.
pub open spec fn tree_view(value: Tree) -> TreeView
    decreases value,
{
    match value {
        Tree::Null => TreeView::Null,
        Tree::Bool(b) => TreeView::Bool(b),
        Tree::Number(n) => TreeView::Number(n@),
        Tree::Text(s) => TreeView::Text(s@),
        Tree::Sequence(items) => TreeView::Sequence(values_view(items@)),
        Tree::Mapping(pairs) => TreeView::Mapping(pairs_view(pairs@)),
        Tree::Tagged(tag, inner) => TreeView::Tagged(tag@, Box::new(tree_view(*inner))),
    }
}

/// What the items of a sequence say.
pub open spec fn values_view(items: Seq<Tree>) -> Seq<TreeView>
    decreases items,
{
    if items.len() == 0 {
        Seq::empty()
    } else {
        values_view(items.drop_last()).push(tree_view(items.last()))
    }
}

/// What the pairs of a mapping say.
pub open spec fn pairs_view(pairs: Seq<(Tree, Tree)>) -> Seq<(TreeView, TreeView)>
    decreases pairs,
{
    if pairs.len() == 0 {
        Seq::empty()
    } else {
        pairs_view(pairs.drop_last()).push((tree_view(pairs.last().0), tree_view(pairs.last().1)))
    }
}

impl View for Tree {
    type V = TreeView;

    open spec fn view(&self) -> TreeView {
        tree_view(*self)
    }
}

/// The view of a sequence goes item by item.
pub proof fn lemma_values_view(items: Seq<Tree>)
    ensures
        values_view(items).len() == items.len(),
        forall|i: int| 0 <= i < items.len() ==> #[trigger] values_view(items)[i] == items[i]@,
    decreases items.len(),
{
    if items.len() > 0 {
        lemma_values_view(items.drop_last());
        assert forall|i: int| 0 <= i < items.len() implies #[trigger] values_view(items)[i]
            == items[i]@ by {
            if i < items.len() - 1 {
                assert(values_view(items)[i] == values_view(items.drop_last())[i]);
            }
        }
    }
}

/// The view of a mapping goes pair by pair.
pub proof fn lemma_pairs_view(pairs: Seq<(Tree, Tree)>)
    ensures
        pairs_view(pairs).len() == pairs.len(),
        forall|i: int|
            0 <= i < pairs.len() ==> #[trigger] pairs_view(pairs)[i] == (pairs[i].0@, pairs[i].1@),
    decreases pairs.len(),
{
    if pairs.len() > 0 {
        lemma_pairs_view(pairs.drop_last());
        assert forall|i: int| 0 <= i < pairs.len() implies #[trigger] pairs_view(pairs)[i] == (
            pairs[i].0@,
            pairs[i].1@,
        ) by {
            if i < pairs.len() - 1 {
                assert(pairs_view(pairs)[i] == pairs_view(pairs.drop_last())[i]);
            }
        }
    }
}

impl Duplicate for Tree {
    /// A copy of the tree.
    fn copy(&self) -> (r: Tree)
        decreases self,
    {
        match self {
            Tree::Null => Tree::Null,
            Tree::Bool(b) => Tree::Bool(*b),
            Tree::Number(n) => Tree::Number(n.clone()),
            Tree::Text(s) => Tree::Text(s.clone()),
            Tree::Sequence(items) => {
                let mut r: Vec<Tree> = Vec::new();
                let mut i: usize = 0;
                while i < items.len()
                    invariant
                        i <= items@.len(),
                        r@.len() == i,
                        *self == Tree::Sequence(*items),
                        forall|j: int| 0 <= j < i ==> (#[trigger] r@[j])@ == items@[j]@,
                    decreases items@.len() - i,
                {
                    proof {
                        assert(decreases_to!(self => self->Sequence_0));
                        assert(decreases_to!(items@ => items@[i as int]));
                    }
                    r.push(items[i].copy());
                    i += 1;
                }
                proof {
                    lemma_values_view(items@);
                    lemma_values_view(r@);
                    assert(values_view(r@) =~= values_view(items@));
                }
                Tree::Sequence(r)
            },
            Tree::Mapping(pairs) => {
                let mut r: Vec<(Tree, Tree)> = Vec::new();
                let mut i: usize = 0;
                while i < pairs.len()
                    invariant
                        i <= pairs@.len(),
                        r@.len() == i,
                        *self == Tree::Mapping(*pairs),
                        forall|j: int|
                            0 <= j < i ==> (#[trigger] r@[j]).0@ == pairs@[j].0@ && r@[j].1@
                                == pairs@[j].1@,
                    decreases pairs@.len() - i,
                {
                    proof {
                        assert(decreases_to!(self => self->Mapping_0));
                        assert(decreases_to!(pairs@ => pairs@[i as int]));
                        assert(decreases_to!(pairs@[i as int] => pairs@[i as int].0));
                        assert(decreases_to!(pairs@[i as int] => pairs@[i as int].1));
                    }
                    r.push((pairs[i].0.copy(), pairs[i].1.copy()));
                    i += 1;
                }
                proof {
                    lemma_pairs_view(pairs@);
                    lemma_pairs_view(r@);
                    assert(pairs_view(r@) =~= pairs_view(pairs@));
                }
                Tree::Mapping(r)
            },
            Tree::Tagged(tag, inner) => Tree::Tagged(tag.clone(), Box::new(inner.copy())),
        }
    }
}

/// What a tree is behind its tags.
pub open spec fn untagged(value: TreeView) -> TreeView
    decreases value,
{
    match value {
        TreeView::Tagged(_, inner) => untagged(*inner),
        _ => value,
    }
}

/// The text that a tree is behind its tags.
pub open spec fn text_of(value: TreeView) -> Option<Seq<char>> {
    match untagged(value) {
        TreeView::Text(s) => Some(s),
        _ => None,
    }
}

/// Where the key `key` stands in a mapping.
pub open spec fn key_index(pairs: Seq<(TreeView, TreeView)>, key: Seq<char>) -> Option<int>
    decreases pairs.len(),
{
    if pairs.len() == 0 {
        None
    } else if pairs[0].0 == TreeView::Text(key) {
        Some(0)
    } else {
        match key_index(pairs.skip(1), key) {
            Some(i) => Some(i + 1),
            None => None,
        }
    }
}

/// Where a key found by `key_index` stands.
pub proof fn lemma_key_index(pairs: Seq<(TreeView, TreeView)>, key: Seq<char>)
    ensures
        key_index(pairs, key) matches Some(i) ==> 0 <= i < pairs.len() && pairs[i].0
            == TreeView::Text(key),
    decreases pairs.len(),
{
    if pairs.len() > 0 {
        lemma_key_index(pairs.skip(1), key);
    }
}

impl Tree {
    /// The text that the tree is behind its tags.
    pub fn as_text(&self) -> (r: Option<&String>)
        ensures
            match r {
                Some(s) => text_of(self@) == Some(s@),
                None => text_of(self@) is None,
            },
        decreases self,
    {
        match self {
            Tree::Tagged(_, inner) => inner.as_text(),
            Tree::Text(s) => Some(s),
            _ => None,
        }
    }
}

/// Where the key `key` stands in a mapping.
pub fn find_key(pairs: &Vec<(Tree, Tree)>, key: &str) -> (r: Option<usize>)
    ensures
        match r {
            Some(i) => i < pairs@.len() && key_index(pairs_view(pairs@), key@) == Some(i as int),
            None => key_index(pairs_view(pairs@), key@) is None,
        },
{
    let ghost all = pairs_view(pairs@);
    proof {
        lemma_pairs_view(pairs@);
    }
    let mut i: usize = 0;
    assert(all.skip(0) =~= all);
    while i < pairs.len()
        invariant
            i <= pairs@.len() == all.len(),
            all == pairs_view(pairs@),
            forall|j: int| 0 <= j < all.len() ==> #[trigger] all[j] == (pairs@[j].0@, pairs@[j].1@),
            key_index(all, key@) == (match key_index(all.skip(i as int), key@) {
                Some(k) => Some(k + i),
                None => None::<int>,
            }),
        decreases pairs@.len() - i,
    {
        let ghost rest = all.skip(i as int);
        assert(rest[0] == all[i as int]);
        assert(rest.skip(1) =~= all.skip(i + 1));
        if let Tree::Text(s) = &pairs[i].0 {
            if crate::text::same(s.as_str(), key) {
                return Some(i);
            }
        }
        i += 1;
    }
    None
}

/// A key is found at the first place where it stands, and not found exactly if it stands nowhere.
pub proof fn law_key_is_found_first(pairs: Seq<(TreeView, TreeView)>, key: Seq<char>)
    ensures
        key_index(pairs, key) matches Some(i) ==> 0 <= i < pairs.len() && pairs[i].0
            == TreeView::Text(key) && forall|j: int|
            0 <= j < i ==> (#[trigger] pairs[j]).0 != TreeView::Text(key),
        key_index(pairs, key) is None ==> forall|j: int|
            0 <= j < pairs.len() ==> (#[trigger] pairs[j]).0 != TreeView::Text(key),
    decreases pairs.len(),
{
    if pairs.len() > 0 {
        let rest = pairs.skip(1);
        law_key_is_found_first(rest, key);
        assert forall|j: int|
            0 <= j < pairs.len() && pairs[0].0 != TreeView::Text(key) && (key_index(
                pairs,
                key,
            ) matches Some(i) ==> j < i) implies (#[trigger] pairs[j]).0 != TreeView::Text(key) by {
            if j > 0 {
                assert(rest[j - 1] == pairs[j]);
            }
        }
    }
}

/// Tags do not hide a text; what is no text behind its tags has none.
pub proof fn law_tags_are_seen_through(tag: Seq<char>, inner: TreeView, s: Seq<char>, other: TreeView)
    requires
        other is Null || other is Bool || other is Number || other is Sequence || other is Mapping,
    ensures
        text_of(TreeView::Text(s)) == Some(s),
        text_of(TreeView::Tagged(tag, Box::new(inner))) == text_of(inner),
        text_of(other) is None,
        untagged(other) == other,
{
    assert(untagged(TreeView::Text(s)) == TreeView::Text(s));
    assert(untagged(TreeView::Tagged(tag, Box::new(inner))) == untagged(inner));
}

} // verus!
