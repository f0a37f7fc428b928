//! Substitution of environment variables throughout a tree of data.
use crate::env::{self, fill, questions_of, Environment};
use crate::formats::Duplicate;
use crate::text::{self, add_all};
use crate::tree::{self, Tree, TreeView};
use vstd::prelude::*;

verus! {

/// What an environment says: a value for each variable.
pub type Variables = Map<Seq<char>, Seq<char>>;

/// The questions that a tree raises, in order. Keys and tagged values raise none.
pub open spec fn tree_questions(value: TreeView, vars: Variables) -> Seq<Seq<char>>
    decreases value,
{
    match value {
        TreeView::Text(s) => env::text_questions(s, vars),
        TreeView::Sequence(items) => list_questions(items, vars),
        TreeView::Mapping(pairs) => pair_questions(pairs, vars),
        _ => Seq::empty(),
    }
}

/// The questions that the items of a sequence raise.
pub open spec fn list_questions(items: Seq<TreeView>, vars: Variables) -> Seq<Seq<char>>
    decreases items,
{
    if items.len() == 0 {
        Seq::empty()
    } else {
        list_questions(items.drop_last(), vars) + tree_questions(items.last(), vars)
    }
}

/// The questions that the values of a mapping raise.
pub open spec fn pair_questions(
    pairs: Seq<(TreeView, TreeView)>,
    vars: Variables,
) -> Seq<Seq<char>>
    decreases pairs,
{
    if pairs.len() == 0 {
        Seq::empty()
    } else {
        pair_questions(pairs.drop_last(), vars) + tree_questions(pairs.last().1, vars)
    }
}

/// The tree with the placeholders replaced whose answer is yes; one answer for each question.
pub open spec fn substituted(value: TreeView, vars: Variables, answers: Seq<bool>) -> TreeView
    decreases value,
{
    match value {
        TreeView::Text(s) => TreeView::Text(
            env::filled(s, env::replaceable(s, vars), vars, answers),
        ),
        TreeView::Sequence(items) => TreeView::Sequence(list_substituted(items, vars, answers)),
        TreeView::Mapping(pairs) => TreeView::Mapping(pair_substituted(pairs, vars, answers)),
        _ => value,
    }
}

/// The items of a sequence, each with its share of the answers.
pub open spec fn list_substituted(
    items: Seq<TreeView>,
    vars: Variables,
    answers: Seq<bool>,
) -> Seq<TreeView>
    decreases items,
{
    if items.len() == 0 {
        items
    } else {
        let n = list_questions(items.drop_last(), vars).len() as int;
        list_substituted(items.drop_last(), vars, answers.take(n)).push(
            substituted(items.last(), vars, answers.skip(n)),
        )
    }
}

/// The pairs of a mapping, each value with its share of the answers.
pub open spec fn pair_substituted(
    pairs: Seq<(TreeView, TreeView)>,
    vars: Variables,
    answers: Seq<bool>,
) -> Seq<(TreeView, TreeView)>
    decreases pairs,
{
    if pairs.len() == 0 {
        pairs
    } else {
        let n = pair_questions(pairs.drop_last(), vars).len() as int;
        pair_substituted(pairs.drop_last(), vars, answers.take(n)).push(
            (pairs.last().0, substituted(pairs.last().1, vars, answers.skip(n))),
        )
    }
}

/// The first items raise no more questions than all of them.
proof fn lemma_list_prefix(items: Seq<TreeView>, k: int, vars: Variables)
    requires
        0 <= k <= items.len(),
    ensures
        list_questions(items.take(k), vars).len() <= list_questions(items, vars).len(),
    decreases items.len(),
{
    if k == items.len() {
        assert(items.take(k) =~= items);
    } else {
        lemma_list_prefix(items.drop_last(), k, vars);
        assert(items.drop_last().take(k) =~= items.take(k));
    }
}

/// The first pairs raise no more questions than all of them.
proof fn lemma_pair_prefix(pairs: Seq<(TreeView, TreeView)>, k: int, vars: Variables)
    requires
        0 <= k <= pairs.len(),
    ensures
        pair_questions(pairs.take(k), vars).len() <= pair_questions(pairs, vars).len(),
    decreases pairs.len(),
{
    if k == pairs.len() {
        assert(pairs.take(k) =~= pairs);
    } else {
        lemma_pair_prefix(pairs.drop_last(), k, vars);
        assert(pairs.drop_last().take(k) =~= pairs.take(k));
    }
}

/// The questions that a tree raises, in order.
pub fn questions_in(value: &Tree, vars: &Environment) -> (r: Vec<String>)
    ensures
        text::string_views(r@) == tree_questions(value@, vars@),
    decreases value,
{
    let mut r: Vec<String> = Vec::new();
    match value {
        Tree::Text(s) => {
            return questions_of(s.as_str(), vars);
        },
        Tree::Sequence(items) => {
            let ghost all = tree::values_view(items@);
            let mut i: usize = 0;
            proof {
                tree::lemma_values_view(items@);
                assert(text::string_views(r@) =~= list_questions(all.take(0), vars@));
            }
            while i < items.len()
                invariant
                    i <= items@.len() == all.len(),
                    *value == Tree::Sequence(*items),
                    forall|j: int| 0 <= j < all.len() ==> #[trigger] all[j] == items@[j]@,
                    text::string_views(r@) == list_questions(all.take(i as int), vars@),
                decreases items@.len() - i,
            {
                proof {
                    assert(decreases_to!(value => value->Sequence_0));
                    assert(decreases_to!(items@ => items@[i as int]));
                    assert(all.take(i + 1).drop_last() =~= all.take(i as int));
                    assert(all.take(i + 1).last() == all[i as int]);
                }
                add_all(&mut r, questions_in(&items[i], vars));
                i += 1;
            }
            assert(all.take(all.len() as int) =~= all);
        },
        Tree::Mapping(pairs) => {
            let ghost all = tree::pairs_view(pairs@);
            let mut i: usize = 0;
            proof {
                tree::lemma_pairs_view(pairs@);
                assert(text::string_views(r@) =~= pair_questions(all.take(0), vars@));
            }
            while i < pairs.len()
                invariant
                    i <= pairs@.len() == all.len(),
                    *value == Tree::Mapping(*pairs),
                    forall|j: int|
                        0 <= j < all.len() ==> #[trigger] all[j] == (pairs@[j].0@, pairs@[j].1@),
                    text::string_views(r@) == pair_questions(all.take(i as int), vars@),
                decreases pairs@.len() - i,
            {
                proof {
                    assert(decreases_to!(value => value->Mapping_0));
                    assert(decreases_to!(pairs@ => pairs@[i as int]));
                    assert(decreases_to!(pairs@[i as int] => pairs@[i as int].1));
                    assert(all.take(i + 1).drop_last() =~= all.take(i as int));
                    assert(all.take(i + 1).last() == all[i as int]);
                }
                add_all(&mut r, questions_in(&pairs[i].1, vars));
                i += 1;
            }
            assert(all.take(all.len() as int) =~= all);
        },
        _ => {},
    }
    assert(text::string_views(r@) =~= tree_questions(value@, vars@));
    r
}

/// The tree with the placeholders replaced whose answer is yes. The answers to the questions of
/// this tree start at `from`; where they end comes back too.
pub fn substitute(value: &Tree, vars: &Environment, answers: &Vec<bool>, from: usize) -> (r: (
    Tree,
    usize,
))
    requires
        from + tree_questions(value@, vars@).len() <= answers@.len(),
    ensures
        r.1 == from + tree_questions(value@, vars@).len(),
        r.0@ == substituted(value@, vars@, answers@.subrange(from as int, r.1 as int)),
    decreases value,
{
    let limit: usize = answers.len();
    match value {
        Tree::Text(s) => {
            let found = questions_of(s.as_str(), vars);
            assert(text::string_views(found@).len() == found@.len());
            (Tree::Text(fill(s.as_str(), vars, answers, from)), from + found.len())
        },
        Tree::Sequence(items) => {
            let ghost all = tree::values_view(items@);
            let ghost total = list_questions(all, vars@).len();
            let mut r: Vec<Tree> = Vec::new();
            let mut at: usize = from;
            let mut i: usize = 0;
            proof {
                tree::lemma_values_view(items@);
                assert(tree::values_view(r@) =~= list_substituted(
                    all.take(0),
                    vars@,
                    answers@.subrange(from as int, at as int),
                ));
            }
            while i < items.len()
                invariant
                    i <= items@.len() == all.len(),
                    *value == Tree::Sequence(*items),
                    forall|j: int| 0 <= j < all.len() ==> #[trigger] all[j] == items@[j]@,
                    total == list_questions(all, vars@).len(),
                    from + total <= answers@.len() == limit,
                    at == from + list_questions(all.take(i as int), vars@).len(),
                    tree::values_view(r@) == list_substituted(
                        all.take(i as int),
                        vars@,
                        answers@.subrange(from as int, at as int),
                    ),
                decreases items@.len() - i,
            {
                proof {
                    assert(decreases_to!(value => value->Sequence_0));
                    assert(decreases_to!(items@ => items@[i as int]));
                    assert(all.take(i + 1).drop_last() =~= all.take(i as int));
                    assert(all.take(i + 1).last() == all[i as int]);
                    lemma_list_prefix(all, i + 1, vars@);
                }
                let (item, next) = substitute(&items[i], vars, answers, at);
                let ghost before = r@;
                r.push(item);
                proof {
                    let given = answers@.subrange(from as int, next as int);
                    let n = at - from;
                    assert(given.take(n) =~= answers@.subrange(from as int, at as int));
                    assert(given.skip(n) =~= answers@.subrange(at as int, next as int));
                    assert(r@.drop_last() =~= before);
                }
                at = next;
                i += 1;
            }
            assert(all.take(all.len() as int) =~= all);
            (Tree::Sequence(r), at)
        },
        Tree::Mapping(pairs) => {
            let ghost all = tree::pairs_view(pairs@);
            let ghost total = pair_questions(all, vars@).len();
            let mut r: Vec<(Tree, Tree)> = Vec::new();
            let mut at: usize = from;
            let mut i: usize = 0;
            proof {
                tree::lemma_pairs_view(pairs@);
                assert(tree::pairs_view(r@) =~= pair_substituted(
                    all.take(0),
                    vars@,
                    answers@.subrange(from as int, at as int),
                ));
            }
            while i < pairs.len()
                invariant
                    i <= pairs@.len() == all.len(),
                    *value == Tree::Mapping(*pairs),
                    forall|j: int|
                        0 <= j < all.len() ==> #[trigger] all[j] == (pairs@[j].0@, pairs@[j].1@),
                    total == pair_questions(all, vars@).len(),
                    from + total <= answers@.len() == limit,
                    at == from + pair_questions(all.take(i as int), vars@).len(),
                    tree::pairs_view(r@) == pair_substituted(
                        all.take(i as int),
                        vars@,
                        answers@.subrange(from as int, at as int),
                    ),
                decreases pairs@.len() - i,
            {
                proof {
                    assert(decreases_to!(value => value->Mapping_0));
                    assert(decreases_to!(pairs@ => pairs@[i as int]));
                    assert(decreases_to!(pairs@[i as int] => pairs@[i as int].1));
                    assert(all.take(i + 1).drop_last() =~= all.take(i as int));
                    assert(all.take(i + 1).last() == all[i as int]);
                    lemma_pair_prefix(all, i + 1, vars@);
                }
                let (item, next) = substitute(&pairs[i].1, vars, answers, at);
                let ghost before = r@;
                r.push((pairs[i].0.copy(), item));
                proof {
                    let given = answers@.subrange(from as int, next as int);
                    let n = at - from;
                    assert(given.take(n) =~= answers@.subrange(from as int, at as int));
                    assert(given.skip(n) =~= answers@.subrange(at as int, next as int));
                    assert(r@.drop_last() =~= before);
                }
                at = next;
                i += 1;
            }
            assert(all.take(all.len() as int) =~= all);
            (Tree::Mapping(r), at)
        },
        _ => (value.copy(), from),
    }
}

/// A text stays as it is where every answer is no.
proof fn lemma_filled_not(s: Seq<char>, found: Seq<Seq<char>>, vars: Variables, answers: Seq<bool>)
    requires
        answers.len() == found.len(),
        forall|k: int| 0 <= k < answers.len() ==> !#[trigger] answers[k],
    ensures
        env::filled(s, found, vars, answers) == s,
    decreases found.len(),
{
    if found.len() > 0 {
        lemma_filled_not(s, found.drop_last(), vars, answers.drop_last());
        assert(!answers[answers.len() - 1]);
    }
}

/// Where every answer is no, nothing is substituted.
pub proof fn law_refusal_changes_nothing(value: TreeView, vars: Variables, answers: Seq<bool>)
    requires
        answers.len() == tree_questions(value, vars).len(),
        forall|k: int| 0 <= k < answers.len() ==> !#[trigger] answers[k],
    ensures
        substituted(value, vars, answers) == value,
    decreases value,
{
    match value {
        TreeView::Text(s) => {
            lemma_filled_not(s, env::replaceable(s, vars), vars, answers);
        },
        TreeView::Sequence(items) => {
            lemma_list_refused(items, vars, answers);
        },
        TreeView::Mapping(pairs) => {
            lemma_pair_refused(pairs, vars, answers);
        },
        _ => {},
    }
}

proof fn lemma_list_refused(items: Seq<TreeView>, vars: Variables, answers: Seq<bool>)
    requires
        answers.len() == list_questions(items, vars).len(),
        forall|k: int| 0 <= k < answers.len() ==> !#[trigger] answers[k],
    ensures
        list_substituted(items, vars, answers) == items,
    decreases items,
{
    if items.len() > 0 {
        let n = list_questions(items.drop_last(), vars).len() as int;
        lemma_list_refused(items.drop_last(), vars, answers.take(n));
        law_refusal_changes_nothing(items.last(), vars, answers.skip(n));
        assert(items.drop_last().push(items.last()) =~= items);
    }
}

proof fn lemma_pair_refused(pairs: Seq<(TreeView, TreeView)>, vars: Variables, answers: Seq<bool>)
    requires
        answers.len() == pair_questions(pairs, vars).len(),
        forall|k: int| 0 <= k < answers.len() ==> !#[trigger] answers[k],
    ensures
        pair_substituted(pairs, vars, answers) == pairs,
    decreases pairs,
{
    if pairs.len() > 0 {
        let n = pair_questions(pairs.drop_last(), vars).len() as int;
        lemma_pair_refused(pairs.drop_last(), vars, answers.take(n));
        law_refusal_changes_nothing(pairs.last().1, vars, answers.skip(n));
        assert(pairs.drop_last().push(pairs.last()) =~= pairs);
    }
}

/// A text that is the placeholder of a variable that is set raises one question, and becomes the
/// value of the variable if the answer is yes.
pub proof fn law_placeholder_becomes_value(name: Seq<char>, vars: Variables)
    requires
        name.len() > 0,
        env::begins_name(name[0]),
        forall|k: int| 0 <= k < name.len() ==> env::in_name(#[trigger] name[k]),
        vars.contains_key(name),
    ensures
        tree_questions(TreeView::Text("${"@ + name + "}"@), vars).len() == 1,
        substituted(TreeView::Text("${"@ + name + "}"@), vars, seq![true]) == TreeView::Text(
            vars[name],
        ),
{
    reveal_strlit("${");
    reveal_strlit("}");
    let s = "${"@ + name + "}"@;
    assert(s.skip(2) =~= name + "}"@);
    lemma_name_run(name);
    let rest = s.skip(s.len() as int);
    assert(s.take(s.len() as int) =~= s);
    assert(rest.len() == 0);
    assert(env::placeholders(rest) =~= Seq::empty());
    assert(s[2] == name[0]);
    assert(env::opens(s));
    assert(env::placeholders(s) =~= seq![s]);
    assert(env::variable_of(s) =~= name);
    let none = Seq::<Seq<char>>::empty();
    assert(seq![s].drop_last() =~= none);
    assert(env::known(none, vars) =~= none);
    assert(none.push(s) =~= seq![s]);
    assert(seq![s].last() == s);
    assert(env::known(seq![s], vars) =~= seq![s]);
    assert(seq![true].drop_last() =~= Seq::empty());
    assert(env::filled(s, Seq::empty(), vars, Seq::empty()) == s);
    text::lemma_replaced_whole(s, vars[name]);
}

/// The characters of a name are counted up to the brace behind them.
proof fn lemma_name_run(name: Seq<char>)
    requires
        forall|k: int| 0 <= k < name.len() ==> env::in_name(#[trigger] name[k]),
    ensures
        env::name_run(name + "}"@) == name.len(),
    decreases name.len(),
{
    reveal_strlit("}");
    let s = name + "}"@;
    if name.len() > 0 {
        let tail = name.skip(1);
        assert(s[0] == name[0]);
        assert(s.skip(1) =~= tail + "}"@);
        assert forall|k: int| 0 <= k < tail.len() implies env::in_name(#[trigger] tail[k]) by {
            assert(tail[k] == name[k + 1]);
        }
        lemma_name_run(tail);
    }
}

/// Variables that are not set are not asked for.
pub proof fn law_unset_raises_nothing(value: TreeView)
    ensures
        tree_questions(value, Map::empty()).len() == 0,
    decreases value,
{
    match value {
        TreeView::Text(s) => {
            lemma_known_empty(env::placeholders(s));
        },
        TreeView::Sequence(items) => {
            lemma_list_unset(items);
        },
        TreeView::Mapping(pairs) => {
            lemma_pair_unset(pairs);
        },
        _ => {},
    }
}

proof fn lemma_known_empty(found: Seq<Seq<char>>)
    ensures
        env::known(found, Map::empty()).len() == 0,
    decreases found.len(),
{
    if found.len() > 0 {
        lemma_known_empty(found.drop_last());
    }
}

proof fn lemma_list_unset(items: Seq<TreeView>)
    ensures
        list_questions(items, Map::empty()).len() == 0,
    decreases items,
{
    if items.len() > 0 {
        lemma_list_unset(items.drop_last());
        law_unset_raises_nothing(items.last());
    }
}

proof fn lemma_pair_unset(pairs: Seq<(TreeView, TreeView)>)
    ensures
        pair_questions(pairs, Map::empty()).len() == 0,
    decreases pairs,
{
    if pairs.len() > 0 {
        lemma_pair_unset(pairs.drop_last());
        law_unset_raises_nothing(pairs.last().1);
    }
}

/// A placeholder raises its question in any text of a tree, and what is confirmed is replaced
/// wherever in the text it stands; what stands around it stays.
pub proof fn law_text_is_filled(
    pre: Seq<char>,
    name: Seq<char>,
    post: Seq<char>,
    vars: Variables,
    confirmed: bool,
)
    requires
        env::is_variable_name(name),
        vars.contains_key(name),
        !pre.contains('$'),
        !post.contains('$'),
    ensures
        tree_questions(TreeView::Text(pre + "${"@ + name + "}"@ + post), vars) == seq![
            "Replace '"@ + ("${"@ + name + "}"@) + "' with '"@ + vars[name] + "'?"@,
        ],
        substituted(TreeView::Text(pre + "${"@ + name + "}"@ + post), vars, seq![confirmed])
            == TreeView::Text(
            if confirmed {
                pre + vars[name] + post
            } else {
                pre + "${"@ + name + "}"@ + post
            },
        ),
{
    let s = pre + env::placeholder(name) + post;
    assert(pre + "${"@ + name + "}"@ + post =~= s);
    env::law_placeholder_raises_one_question(pre, name, post, vars);
    env::law_placeholder_raises_one_question(post, name, post, vars);
    env::law_confirmed_placeholder_is_filled(pre, name, post, vars, confirmed);
    assert(tree_questions(TreeView::Text(s), vars) =~= seq![
        "Replace '"@ + env::placeholder(name) + "' with '"@ + vars[name] + "'?"@,
    ]);
}

/// Of the placeholders in a text of a tree each goes by its own answer.
pub proof fn law_text_goes_by_its_answers(
    pre: Seq<char>,
    name: Seq<char>,
    mid: Seq<char>,
    other: Seq<char>,
    post: Seq<char>,
    vars: Variables,
    first: bool,
    second: bool,
)
    requires
        env::is_variable_name(name),
        env::is_variable_name(other),
        name != other,
        vars.contains_key(name),
        vars.contains_key(other),
        !pre.contains('$'),
        !mid.contains('$'),
        !post.contains('$'),
        !vars[name].contains('$'),
    ensures
        substituted(
            TreeView::Text(pre + "${"@ + name + "}"@ + mid + "${"@ + other + "}"@ + post),
            vars,
            seq![first, second],
        ) == TreeView::Text(
            pre + (if first {
                vars[name]
            } else {
                "${"@ + name + "}"@
            }) + mid + (if second {
                vars[other]
            } else {
                "${"@ + other + "}"@
            }) + post,
        ),
{
    let s = pre + env::placeholder(name) + mid + env::placeholder(other) + post;
    assert(pre + "${"@ + name + "}"@ + mid + "${"@ + other + "}"@ + post =~= s);
    env::law_placeholders_go_by_their_answers(pre, name, mid, other, post, vars, first, second);
}

/// A text in a tree raises the questions that it raises by itself, and is filled as it would be by
/// itself. What is no text, list or mapping raises none and stays.
pub proof fn law_leaves_of_a_tree(
    s: Seq<char>,
    vars: Variables,
    answers: Seq<bool>,
    flag: bool,
    inner: TreeView,
)
    ensures
        tree_questions(TreeView::Text(s), vars) == env::text_questions(s, vars),
        substituted(TreeView::Text(s), vars, answers) == TreeView::Text(
            env::filled(s, env::replaceable(s, vars), vars, answers),
        ),
        tree_questions(TreeView::Null, vars).len() == 0,
        substituted(TreeView::Null, vars, answers) == TreeView::Null,
        tree_questions(TreeView::Bool(flag), vars).len() == 0,
        substituted(TreeView::Bool(flag), vars, answers) == TreeView::Bool(flag),
        tree_questions(TreeView::Number(s), vars).len() == 0,
        substituted(TreeView::Number(s), vars, answers) == TreeView::Number(s),
        tree_questions(TreeView::Tagged(s, Box::new(inner)), vars).len() == 0,
        substituted(TreeView::Tagged(s, Box::new(inner)), vars, answers) == TreeView::Tagged(
            s,
            Box::new(inner),
        ),
{
}

/// A list raises the questions of its items one after the other, and each item is substituted by
/// the answers to its own.
pub proof fn law_items_go_by_their_answers(
    a: Seq<TreeView>,
    b: Seq<TreeView>,
    item: TreeView,
    vars: Variables,
    given: Seq<bool>,
    answers: Seq<bool>,
)
    requires
        given.len() == tree_questions(TreeView::Sequence(a), vars).len(),
        answers.len() == tree_questions(TreeView::Sequence(b), vars).len(),
    ensures
        tree_questions(TreeView::Sequence(seq![item]), vars) == tree_questions(item, vars),
        substituted(TreeView::Sequence(seq![item]), vars, answers) == TreeView::Sequence(
            seq![substituted(item, vars, answers)],
        ),
        tree_questions(TreeView::Sequence(a + b), vars) == tree_questions(
            TreeView::Sequence(a),
            vars,
        ) + tree_questions(TreeView::Sequence(b), vars),
        substituted(TreeView::Sequence(a), vars, given) matches TreeView::Sequence(x) && (
        substituted(TreeView::Sequence(b), vars, answers) matches TreeView::Sequence(y)
            && substituted(TreeView::Sequence(a + b), vars, given + answers) == TreeView::Sequence(
            x + y,
        )),
{
    let none = Seq::<TreeView>::empty();
    assert(seq![item].drop_last() =~= none);
    assert(list_questions(none, vars) =~= Seq::empty());
    assert(seq![item].last() == item);
    assert(list_questions(seq![item], vars) =~= tree_questions(item, vars));
    assert(answers.skip(0) =~= answers);
    assert(list_substituted(none, vars, answers.take(0)) =~= none);
    assert(list_substituted(seq![item], vars, answers) =~= seq![substituted(item, vars, answers)]);
    lemma_list_adds(a, b, vars, given, answers);
}

proof fn lemma_list_adds(
    a: Seq<TreeView>,
    b: Seq<TreeView>,
    vars: Variables,
    given: Seq<bool>,
    answers: Seq<bool>,
)
    requires
        given.len() == list_questions(a, vars).len(),
        answers.len() == list_questions(b, vars).len(),
    ensures
        list_questions(a + b, vars) == list_questions(a, vars) + list_questions(b, vars),
        list_substituted(a + b, vars, given + answers) == list_substituted(a, vars, given)
            + list_substituted(b, vars, answers),
    decreases b.len(),
{
    if b.len() == 0 {
        assert(a + b =~= a);
        assert(given + answers =~= given);
        assert(list_questions(a, vars) + list_questions(b, vars) =~= list_questions(a, vars));
        assert(list_substituted(a, vars, given) + list_substituted(b, vars, answers)
            =~= list_substituted(a, vars, given));
    } else {
        let init = b.drop_last();
        let m = list_questions(init, vars).len() as int;
        lemma_list_adds(a, init, vars, given, answers.take(m));
        assert((a + b).drop_last() =~= a + init);
        assert((a + b).last() == b.last());
        let all = given + answers;
        let n = given.len() + m;
        assert(all.take(n) =~= given + answers.take(m));
        assert(all.skip(n) =~= answers.skip(m));
        assert(list_questions(a + b, vars) =~= list_questions(a, vars) + list_questions(b, vars));
        assert(list_substituted(a + b, vars, all) =~= list_substituted(a, vars, given)
            + list_substituted(b, vars, answers));
    }
}

/// A mapping raises the questions of its values one after the other, and each value is substituted
/// by the answers to its own. Keys raise none and stay.
pub proof fn law_values_go_by_their_answers(
    a: Seq<(TreeView, TreeView)>,
    b: Seq<(TreeView, TreeView)>,
    key: TreeView,
    value: TreeView,
    vars: Variables,
    given: Seq<bool>,
    answers: Seq<bool>,
)
    requires
        given.len() == tree_questions(TreeView::Mapping(a), vars).len(),
        answers.len() == tree_questions(TreeView::Mapping(b), vars).len(),
    ensures
        tree_questions(TreeView::Mapping(seq![(key, value)]), vars) == tree_questions(value, vars),
        substituted(TreeView::Mapping(seq![(key, value)]), vars, answers) == TreeView::Mapping(
            seq![(key, substituted(value, vars, answers))],
        ),
        tree_questions(TreeView::Mapping(a + b), vars) == tree_questions(
            TreeView::Mapping(a),
            vars,
        ) + tree_questions(TreeView::Mapping(b), vars),
        substituted(TreeView::Mapping(a), vars, given) matches TreeView::Mapping(x) && (
        substituted(TreeView::Mapping(b), vars, answers) matches TreeView::Mapping(y)
            && substituted(TreeView::Mapping(a + b), vars, given + answers) == TreeView::Mapping(
            x + y,
        )),
{
    let none = Seq::<(TreeView, TreeView)>::empty();
    let one = seq![(key, value)];
    assert(one.drop_last() =~= none);
    assert(pair_questions(none, vars) =~= Seq::empty());
    assert(one.last() == (key, value));
    assert(pair_questions(one, vars) =~= tree_questions(value, vars));
    assert(answers.skip(0) =~= answers);
    assert(pair_substituted(none, vars, answers.take(0)) =~= none);
    assert(pair_substituted(one, vars, answers) =~= seq![
        (key, substituted(value, vars, answers)),
    ]);
    lemma_pairs_add(a, b, vars, given, answers);
}

proof fn lemma_pairs_add(
    a: Seq<(TreeView, TreeView)>,
    b: Seq<(TreeView, TreeView)>,
    vars: Variables,
    given: Seq<bool>,
    answers: Seq<bool>,
)
    requires
        given.len() == pair_questions(a, vars).len(),
        answers.len() == pair_questions(b, vars).len(),
    ensures
        pair_questions(a + b, vars) == pair_questions(a, vars) + pair_questions(b, vars),
        pair_substituted(a + b, vars, given + answers) == pair_substituted(a, vars, given)
            + pair_substituted(b, vars, answers),
    decreases b.len(),
{
    if b.len() == 0 {
        assert(a + b =~= a);
        assert(given + answers =~= given);
        assert(pair_questions(a, vars) + pair_questions(b, vars) =~= pair_questions(a, vars));
        assert(pair_substituted(a, vars, given) + pair_substituted(b, vars, answers)
            =~= pair_substituted(a, vars, given));
    } else {
        let init = b.drop_last();
        let m = pair_questions(init, vars).len() as int;
        lemma_pairs_add(a, init, vars, given, answers.take(m));
        assert((a + b).drop_last() =~= a + init);
        assert((a + b).last() == b.last());
        let all = given + answers;
        let n = given.len() + m;
        assert(all.take(n) =~= given + answers.take(m));
        assert(all.skip(n) =~= answers.skip(m));
        assert(pair_questions(a + b, vars) =~= pair_questions(a, vars) + pair_questions(b, vars));
        assert(pair_substituted(a + b, vars, all) =~= pair_substituted(a, vars, given)
            + pair_substituted(b, vars, answers));
    }
}

} // verus!
