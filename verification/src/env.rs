//! Environment variables: `.env` files and the substitution of `${NAME}`.
use crate::formats::StrMap;
use crate::outside::regex_match_texts;
use crate::text::{self, replace, split_once, trim};
use vstd::prelude::*;

verus! {

/// The environment: variables by name.
pub type Environment = StrMap<String>;

/// A character that can begin a variable's name.
pub open spec fn begins_name(c: char) -> bool {
    'a' <= c <= 'z' || 'A' <= c <= 'Z' || c == '_'
}

/// A character that can stand in a variable's name.
pub open spec fn in_name(c: char) -> bool {
    begins_name(c) || '0' <= c <= '9'
}

/// How many characters at the start of `s` can stand in a name.
pub open spec fn name_run(s: Seq<char>) -> nat
    decreases s.len(),
{
    if s.len() > 0 && in_name(s[0]) {
        1 + name_run(s.skip(1))
    } else {
        0
    }
}

/// `s` starts with a placeholder `${NAME}`.
pub open spec fn opens(s: Seq<char>) -> bool {
    &&& s.len() > 2
    &&& s[0] == '$'
    &&& s[1] == '{'
    &&& begins_name(s[2])
    &&& 2 + name_run(s.skip(2)) < s.len()
    &&& s[2 + name_run(s.skip(2)) as int] == '}'
}

/// The placeholders in `s`, from the left.
pub open spec fn placeholders(s: Seq<char>) -> Seq<Seq<char>>
    decreases s.len(),
{
    if s.len() == 0 {
        Seq::empty()
    } else if opens(s) {
        let n = 3 + name_run(s.skip(2)) as int;
        seq![s.take(n)] + placeholders(s.skip(n))
    } else {
        placeholders(s.skip(1))
    }
}

/// The regular expression of a placeholder.
pub open spec fn placeholder_pattern() -> Seq<char> {
    "\\$\\{[a-zA-Z_][a-zA-Z_0-9]*\\}"@
}

/// The name in a placeholder.
pub open spec fn variable_of(placeholder: Seq<char>) -> Seq<char> {
    placeholder.subrange(2, placeholder.len() - 1)
}

/// Those of `vars` whose variable is set.
pub open spec fn known(vars: Seq<Seq<char>>, env: Map<Seq<char>, Seq<char>>) -> Seq<Seq<char>>
    decreases vars.len(),
{
    if vars.len() == 0 {
        vars
    } else if env.contains_key(variable_of(vars.last())) {
        known(vars.drop_last(), env).push(vars.last())
    } else {
        known(vars.drop_last(), env)
    }
}

/// The placeholders of a text whose replacement is asked for.
pub open spec fn replaceable(text: Seq<char>, env: Map<Seq<char>, Seq<char>>) -> Seq<Seq<char>> {
    known(placeholders(text), env)
}

/// The question whether to replace a placeholder.
pub open spec fn replace_question(
    placeholder: Seq<char>,
    env: Map<Seq<char>, Seq<char>>,
) -> Seq<char> {
    "Replace '"@ + placeholder + "' with '"@ + env[variable_of(placeholder)] + "'?"@
}

/// The questions that a text raises, in order.
pub open spec fn text_questions(text: Seq<char>, env: Map<Seq<char>, Seq<char>>) -> Seq<Seq<char>> {
    replaceable(text, env).map_values(|p: Seq<char>| replace_question(p, env))
}

/// `text` with those of `vars` replaced, one after the other, whose answer is yes.
pub open spec fn filled(
    text: Seq<char>,
    vars: Seq<Seq<char>>,
    env: Map<Seq<char>, Seq<char>>,
    answers: Seq<bool>,
) -> Seq<char>
    decreases vars.len(),
{
    if vars.len() == 0 {
        text
    } else {
        let before = filled(text, vars.drop_last(), env, answers.drop_last());
        if answers.last() {
            text::replaced(before, vars.last(), env[variable_of(vars.last())])
        } else {
            before
        }
    }
}

/// Every placeholder holds a name between its braces.
proof fn lemma_placeholder_len(s: Seq<char>)
    ensures
        forall|k: int| 0 <= k < placeholders(s).len() ==> (#[trigger] placeholders(s)[k]).len() >= 4,
    decreases s.len(),
{
    let all = placeholders(s);
    if s.len() > 0 && opens(s) {
        let n = 3 + name_run(s.skip(2)) as int;
        let rest = placeholders(s.skip(n));
        assert(s.skip(2)[0] == s[2]);
        lemma_placeholder_len(s.skip(n));
        assert forall|k: int| 0 <= k < all.len() implies (#[trigger] all[k]).len() >= 4 by {
            if k > 0 {
                assert(all[k] == rest[k - 1]);
            }
        }
    } else if s.len() > 0 {
        lemma_placeholder_len(s.skip(1));
        assert(all == placeholders(s.skip(1)));
    }
}

/// The placeholders in a text.
pub fn find_placeholders(text: &str) -> (r: Vec<String>)
    ensures
        text::string_views(r@) == placeholders(text@),
{
    match regex_match_texts("\\$\\{[a-zA-Z_][a-zA-Z_0-9]*\\}", text) {
        Ok(found) => found,
        Err(_) => Vec::new(),
    }
}

/// The placeholders of a text whose replacement is asked for.
fn replaceable_in(text: &str, env: &Environment) -> (r: Vec<String>)
    ensures
        text::string_views(r@) == replaceable(text@, env@),
        forall|k: int| 0 <= k < r@.len() ==> (#[trigger] r@[k])@.len() >= 4,
        forall|k: int| 0 <= k < r@.len() ==> env@.contains_key(variable_of((#[trigger] r@[k])@)),
{
    let found = find_placeholders(text);
    proof {
        lemma_placeholder_len(text@);
    }
    let ghost all = text::string_views(found@);
    let mut r: Vec<String> = Vec::new();
    let mut i: usize = 0;
    assert(text::string_views(r@) =~= all.take(0));
    while i < found.len()
        invariant
            i <= found@.len(),
            all == text::string_views(found@),
            forall|k: int| 0 <= k < all.len() ==> (#[trigger] all[k]).len() >= 4,
            text::string_views(r@) == known(all.take(i as int), env@),
            forall|k: int| 0 <= k < r@.len() ==> (#[trigger] r@[k])@.len() >= 4,
            forall|k: int|
                0 <= k < r@.len() ==> env@.contains_key(variable_of((#[trigger] r@[k])@)),
        decreases found@.len() - i,
    {
        let var = &found[i];
        assert(all[i as int] == var@);
        let n: usize = var.as_str().unicode_len();
        let ghost before = text::string_views(r@);
        proof {
            let now = all.take(i + 1);
            assert(now.drop_last() =~= all.take(i as int));
            assert(now.last() == var@);
        }
        if env.contains_key(var.as_str().substring_char(2, n - 1)) {
            r.push(var.clone());
            assert(text::string_views(r@) =~= before.push(var@));
        }
        i += 1;
    }
    assert(all.take(all.len() as int) =~= all);
    r
}

/// The questions that a text raises, in order.
pub fn questions_of(text: &str, env: &Environment) -> (r: Vec<String>)
    ensures
        text::string_views(r@) == text_questions(text@, env@),
{
    let vars = replaceable_in(text, env);
    let ghost all = replaceable(text@, env@);
    let mut r: Vec<String> = Vec::new();
    let mut i: usize = 0;
    while i < vars.len()
        invariant
            i <= vars@.len() == all.len(),
            all == text::string_views(vars@),
            forall|k: int| 0 <= k < vars@.len() ==> (#[trigger] vars@[k])@.len() >= 4,
            forall|k: int|
                0 <= k < vars@.len() ==> env@.contains_key(variable_of((#[trigger] vars@[k])@)),
            r@.len() == i,
            forall|k: int| 0 <= k < i ==> (#[trigger] r@[k])@ == replace_question(all[k], env@),
        decreases vars@.len() - i,
    {
        let var = &vars[i];
        assert(all[i as int] == var@);
        let n: usize = var.as_str().unicode_len();
        if let Some(value) = env.get(var.as_str().substring_char(2, n - 1)) {
            let question = "Replace '".to_owned().concat(var.as_str()).concat("' with '").concat(
                value.as_str(),
            ).concat("'?");
            r.push(question);
        }
        i += 1;
    }
    assert(text::string_views(r@) =~= text_questions(text@, env@));
    r
}

/// `text` with the placeholders replaced whose answer is yes. The answers to the questions of this
/// text start at `from`.
pub fn fill(text: &str, env: &Environment, answers: &Vec<bool>, from: usize) -> (r: String)
    requires
        from + text_questions(text@, env@).len() <= answers@.len(),
    ensures
        r@ == filled(
            text@,
            replaceable(text@, env@),
            env@,
            answers@.subrange(from as int, from + text_questions(text@, env@).len()),
        ),
{
    let vars = replaceable_in(text, env);
    let ghost all = replaceable(text@, env@);
    let ghost mine = answers@.subrange(from as int, from + all.len());
    let mut r = text.to_owned();
    let total: usize = answers.len();
    let mut i: usize = 0;
    while i < vars.len()
        invariant
            i <= vars@.len() == all.len(),
            from + all.len() <= answers@.len() == total,
            all == text::string_views(vars@),
            mine == answers@.subrange(from as int, from + all.len()),
            forall|k: int| 0 <= k < vars@.len() ==> (#[trigger] vars@[k])@.len() >= 4,
            forall|k: int|
                0 <= k < vars@.len() ==> env@.contains_key(variable_of((#[trigger] vars@[k])@)),
            r@ == filled(text@, all.take(i as int), env@, mine.take(i as int)),
        decreases vars@.len() - i,
    {
        let var = &vars[i];
        assert(all[i as int] == var@);
        let n: usize = var.as_str().unicode_len();
        proof {
            assert(all.take(i + 1).drop_last() =~= all.take(i as int));
            assert(mine.take(i + 1).drop_last() =~= mine.take(i as int));
            assert(all.take(i + 1).last() == var@);
            assert(mine.take(i + 1).last() == answers@[from + i]);
        }
        if answers[from + i] {
            if let Some(value) = env.get(var.as_str().substring_char(2, n - 1)) {
                r = replace(r.as_str(), var.as_str(), value.as_str());
            }
        }
        i += 1;
    }
    assert(all.take(all.len() as int) =~= all);
    assert(mine.take(all.len() as int) =~= mine);
    r
}

/// `value` starts and ends with `quote`.
pub open spec fn is_quoted(value: Seq<char>, quote: char) -> bool {
    value.len() > 0 && value[0] == quote && value.last() == quote
}

/// The value meant by the right side of an assignment: what stands between quotes, or what stands
/// before a comment.
pub open spec fn meant(value: Seq<char>) -> Seq<char> {
    if is_quoted(value, '"') || is_quoted(value, '\'') {
        if value.len() >= 2 {
            value.subrange(1, value.len() - 1)
        } else {
            value
        }
    } else {
        match text::cut(value, "#"@) {
            Some((before, _)) => text::trimmed(before),
            None => value,
        }
    }
}

/// The assignment in a line of a `.env` file. Blank lines, comments and lines without an equals
/// sign hold none.
pub open spec fn assignment(line: Seq<char>) -> Option<(Seq<char>, Seq<char>)> {
    let content = text::trimmed(line);
    if content.len() == 0 || content[0] == '#' {
        None
    } else {
        match text::cut(content, "="@) {
            Some((key, value)) => Some((text::trimmed(key), meant(text::trimmed(value)))),
            None => None,
        }
    }
}

/// Whether `value` starts and ends with `quote`.
fn quoted(value: &str, quote: char) -> (r: bool)
    ensures
        r == is_quoted(value@, quote),
{
    let n: usize = value.unicode_len();
    n > 0 && value.get_char(0) == quote && value.get_char(n - 1) == quote
}

/// The assignment in a line of a `.env` file.
pub fn parse_env_line(line: &str) -> (r: Option<(String, String)>)
    ensures
        match r {
            Some((key, value)) => assignment(line@) == Some((key@, value@)),
            None => assignment(line@) is None,
        },
{
    let content = trim(line);
    if content.unicode_len() == 0 || content.get_char(0) == '#' {
        return None;
    }
    match split_once(content, "=") {
        Some((key, right)) => {
            let value = trim(right);
            let n: usize = value.unicode_len();
            let meaning = if quoted(value, '"') || quoted(value, '\'') {
                if n >= 2 {
                    value.substring_char(1, n - 1)
                } else {
                    value
                }
            } else {
                match split_once(value, "#") {
                    Some((before, _)) => trim(before),
                    None => value,
                }
            };
            Some((trim(key).to_owned(), meaning.to_owned()))
        },
        None => None,
    }
}

/// What is to be done about a line of a `.env` file.
#[derive(Debug, PartialEq)]
pub enum EnvLine {
    /// Nothing.
    Ignore,
    /// Set the variable.
    Assign { key: String, value: String },
    /// Set the variable if the answer to the question, whose default is no, is yes.
    Ask { key: String, value: String, question: String },
}

/// The question whether to overwrite a variable.
pub open spec fn overwrite_question(
    key: Seq<char>,
    existing: Seq<char>,
    value: Seq<char>,
) -> Seq<char> {
    "Environment variable '"@ + key + "' is already set to '"@ + existing + "'. Overwrite with '"@
        + value + "' for variable substitution?"@
}

/// Decides what is to be done about a line of a `.env` file.
pub fn source_line(env: &Environment, line: &str) -> (r: EnvLine)
    ensures
        match (assignment(line@), r) {
            (None, EnvLine::Ignore) => true,
            (Some((k, v)), EnvLine::Assign { key, value }) => k == key@ && v == value@
                && !env@.contains_key(k),
            (Some((k, v)), EnvLine::Ask { key, value, question }) => k == key@ && v == value@
                && env@.contains_key(k) && question@ == overwrite_question(k, env@[k], v),
            _ => false,
        },
{
    match parse_env_line(line) {
        Some((key, value)) => match env.get(key.as_str()) {
            Some(existing) => {
                let question = "Environment variable '".to_owned().concat(key.as_str()).concat(
                    "' is already set to '",
                ).concat(existing.as_str()).concat("'. Overwrite with '").concat(
                    value.as_str(),
                ).concat("' for variable substitution?");
                EnvLine::Ask { key, value, question }
            },
            None => EnvLine::Assign { key, value },
        },
        None => EnvLine::Ignore,
    }
}

/// The variables after a line was dealt with.
pub open spec fn settled(
    vars: Map<Seq<char>, Seq<char>>,
    line: EnvLine,
    confirmed: bool,
) -> Map<Seq<char>, Seq<char>> {
    match line {
        EnvLine::Ignore => vars,
        EnvLine::Assign { key, value } => vars.insert(key@, value@),
        EnvLine::Ask { key, value, .. } => if confirmed {
            vars.insert(key@, value@)
        } else {
            vars
        },
    }
}

/// Deals with a line. `confirmed` is the answer to its question, if it has one.
pub fn settle_line(vars: &mut Environment, line: EnvLine, confirmed: bool)
    ensures
        final(vars)@ == settled(old(vars)@, line, confirmed),
{
    match line {
        EnvLine::Ignore => {},
        EnvLine::Assign { key, value } => {
            vars.insert(key, value);
        },
        EnvLine::Ask { key, value, .. } => {
            if confirmed {
                vars.insert(key, value);
            }
        },
    }
}

/// A plain line `NAME=value` assigns the value to the name.
pub proof fn law_plain_line_assigns(name: Seq<char>, value: Seq<char>)
    requires
        name.len() > 0,
        !name.contains('='),
        name[0] != '#',
        text::trimmed(name) == name,
        text::trimmed(value) == value,
        text::trimmed(name + "="@ + value) == name + "="@ + value,
        !value.contains('#'),
        !is_quoted(value, '"'),
        !is_quoted(value, '\''),
    ensures
        assignment(name + "="@ + value) == Some((name, value)),
{
    reveal_strlit("=");
    reveal_strlit("#");
    let line = name + "="@ + value;
    let n = name.len() as int;
    assert(line.skip(n).take(1) =~= "="@);
    assert(text::begins(line.skip(n), "="@));
    assert forall|j: int| 0 <= j < n implies !text::begins(#[trigger] line.skip(j), "="@) by {
        assert(line.skip(j)[0] == name[j]);
        assert(name.contains(name[j]));
        if text::begins(line.skip(j), "="@) {
            assert(line.skip(j).take(1)[0] == '=');
        }
    }
    text::lemma_find_is(line, "="@, n);
    assert(line.take(n) =~= name);
    assert(line.skip(n + 1) =~= value);
    text::lemma_find_bounds(value, "#"@);
    if let Some(i) = text::find(value, "#"@) {
        assert(value.subrange(i, i + 1)[0] == value[i]);
        assert(value.contains(value[i]));
    }
}

/// The name of a variable: ASCII letters, digits and underscores, with no digit at the start.
pub open spec fn is_variable_name(name: Seq<char>) -> bool {
    &&& name.len() > 0
    &&& !('0' <= name[0] <= '9')
    &&& forall|k: int|
        0 <= k < name.len() ==> 'a' <= #[trigger] name[k] <= 'z' || 'A' <= name[k] <= 'Z' || '0'
            <= name[k] <= '9' || name[k] == '_'
}

/// The placeholder of a variable.
pub open spec fn placeholder(name: Seq<char>) -> Seq<char> {
    "${"@ + name + "}"@
}

/// What a placeholder is made of.
proof fn lemma_placeholder(name: Seq<char>)
    requires
        is_variable_name(name),
    ensures
        placeholder(name).len() == name.len() + 3,
        placeholder(name)[0] == '$',
        placeholder(name)[1] == '{',
        placeholder(name)[name.len() as int + 2] == '}',
        forall|k: int| 0 <= k < name.len() ==> #[trigger] placeholder(name)[k + 2] == name[k],
        forall|k: int| 0 < k < name.len() + 3 ==> #[trigger] placeholder(name)[k] != '$',
        variable_of(placeholder(name)) == name,
        "${"@ == seq!['$', '{'],
        "}"@ == seq!['}'],
{
    reveal_strlit("${");
    reveal_strlit("}");
    assert("${"@ =~= seq!['$', '{']);
    assert("}"@ =~= seq!['}']);
    let p = placeholder(name);
    assert forall|k: int| 0 < k < name.len() + 3 implies #[trigger] p[k] != '$' by {
        if 2 <= k < name.len() + 2 {
            assert(p[k] == name[k - 2]);
        }
    }
    assert(variable_of(p) =~= name);
}

/// What stands behind a run of name characters does not lengthen it.
proof fn lemma_run_ends(a: Seq<char>, b: Seq<char>)
    requires
        b.len() == 0 || !in_name(b[0]),
    ensures
        name_run(a + b) == name_run(a),
        name_run(a) <= a.len(),
    decreases a.len(),
{
    let s = a + b;
    if a.len() == 0 {
        assert(s =~= b);
    } else {
        lemma_run_ends(a.skip(1), b);
        assert(s[0] == a[0]);
        assert(s.skip(1) =~= a.skip(1) + b);
    }
}

/// All characters of a name are counted.
proof fn lemma_run_of_name(name: Seq<char>, rest: Seq<char>)
    requires
        forall|k: int| 0 <= k < name.len() ==> in_name(#[trigger] name[k]),
        rest.len() == 0 || !in_name(rest[0]),
    ensures
        name_run(name + rest) == name.len(),
    decreases name.len(),
{
    let s = name + rest;
    if name.len() == 0 {
        assert(s =~= rest);
    } else {
        let tail = name.skip(1);
        assert forall|k: int| 0 <= k < tail.len() implies in_name(#[trigger] tail[k]) by {
            assert(tail[k] == name[k + 1]);
        }
        lemma_run_of_name(tail, rest);
        assert(s[0] == name[0]);
        assert(s.skip(1) =~= tail + rest);
    }
}

/// Whether a placeholder opens a text is not changed by another one behind it.
proof fn lemma_opens_before(a: Seq<char>, b: Seq<char>)
    requires
        a.len() > 0,
        b.len() == 0 || b[0] == '$',
    ensures
        opens(a + b) == opens(a),
        opens(a) ==> 3 + name_run(a.skip(2)) <= a.len() && name_run((a + b).skip(2)) == name_run(
            a.skip(2),
        ),
{
    let s = a + b;
    if a.len() > 2 {
        assert(s.skip(2) =~= a.skip(2) + b);
        lemma_run_ends(a.skip(2), b);
        let r = 2 + name_run(a.skip(2));
        assert(s[0] == a[0] && s[1] == a[1] && s[2] == a[2]);
        if r < a.len() {
            assert(s[r as int] == a[r as int]);
        } else if b.len() > 0 {
            assert(s[r as int] == b[0]);
        }
    } else if b.len() > 0 {
        assert(s[a.len() as int] == b[0]);
    } else {
        assert(s =~= a);
    }
}

/// The placeholders of a text are those of its start and then those of its end, wherever the end
/// starts with a dollar sign.
pub proof fn law_placeholders_follow_each_other(a: Seq<char>, b: Seq<char>)
    requires
        b.len() == 0 || b[0] == '$',
    ensures
        placeholders(a + b) == placeholders(a) + placeholders(b),
    decreases a.len(),
{
    let s = a + b;
    if a.len() == 0 {
        assert(s =~= b);
        assert(placeholders(a) + placeholders(b) =~= placeholders(b));
    } else {
        lemma_opens_before(a, b);
        if opens(a) {
            let n = 3 + name_run(a.skip(2)) as int;
            assert(s.take(n) =~= a.take(n));
            assert(s.skip(n) =~= a.skip(n) + b);
            law_placeholders_follow_each_other(a.skip(n), b);
            assert(placeholders(s) =~= placeholders(a) + placeholders(b));
        } else {
            assert(s.skip(1) =~= a.skip(1) + b);
            law_placeholders_follow_each_other(a.skip(1), b);
        }
    }
}

/// A variable's name in braces behind a dollar sign is a placeholder, whatever stands before and
/// behind it. A text without a dollar sign has none.
pub proof fn law_placeholder_is_found(pre: Seq<char>, name: Seq<char>, post: Seq<char>)
    requires
        is_variable_name(name),
    ensures
        placeholders(pre + placeholder(name) + post) == placeholders(pre) + seq![placeholder(name)]
            + placeholders(post),
        !pre.contains('$') ==> placeholders(pre).len() == 0,
{
    lemma_placeholder(name);
    let p = placeholder(name);
    let tail = p + post;
    let n = p.len() as int;
    assert forall|k: int| 0 <= k < name.len() implies in_name(#[trigger] name[k]) by {}
    assert(tail.skip(2) =~= name + ("}"@ + post));
    lemma_run_of_name(name, "}"@ + post);
    assert(tail[2] == p[0int + 2]);
    assert(tail[name.len() as int + 2] == p[name.len() as int + 2]);
    assert(tail[0] == p[0] && tail[1] == p[1]);
    assert(begins_name(name[0]));
    assert(opens(tail));
    assert(tail.take(n) =~= p);
    assert(tail.skip(n) =~= post);
    law_placeholders_follow_each_other(pre, tail);
    assert(pre + p + post =~= pre + tail);
    assert(placeholders(pre) + (seq![p] + placeholders(post)) =~= placeholders(pre) + seq![p]
        + placeholders(post));
    if !pre.contains('$') {
        lemma_no_dollar(pre);
    }
}

/// A text without a dollar sign has no placeholder.
proof fn lemma_no_dollar(s: Seq<char>)
    requires
        !s.contains('$'),
    ensures
        placeholders(s) == Seq::<Seq<char>>::empty(),
    decreases s.len(),
{
    if s.len() > 0 {
        assert(s.contains(s[0]));
        assert forall|i: int| 0 <= i < s.skip(1).len() implies s.skip(1)[i] != '$' by {
            assert(s.contains(s[i + 1]));
        }
        lemma_no_dollar(s.skip(1));
    }
}

/// The characters that are counted can all stand in a name.
proof fn lemma_run_in_name(s: Seq<char>)
    ensures
        name_run(s) <= s.len(),
        forall|k: int| 0 <= k < name_run(s) ==> in_name(#[trigger] s[k]),
    decreases s.len(),
{
    if s.len() > 0 && in_name(s[0]) {
        lemma_run_in_name(s.skip(1));
        assert forall|k: int| 0 <= k < name_run(s) implies in_name(#[trigger] s[k]) by {
            if k > 0 {
                assert(s.skip(1)[k - 1] == s[k]);
            }
        }
    }
}

/// Every placeholder of a text is a variable's name in braces behind a dollar sign, and stands in
/// the text.
pub proof fn law_placeholders_are_in_the_text(s: Seq<char>, k: int)
    requires
        0 <= k < placeholders(s).len(),
    ensures
        is_variable_name(variable_of(placeholders(s)[k])),
        placeholders(s)[k] == placeholder(variable_of(placeholders(s)[k])),
        exists|a: Seq<char>, b: Seq<char>| s == #[trigger] (a + placeholders(s)[k] + b),
    decreases s.len(),
{
    reveal_strlit("${");
    reveal_strlit("}");
    let all = placeholders(s);
    let p = all[k];
    if opens(s) {
        let r = name_run(s.skip(2));
        let n = 3 + r as int;
        lemma_run_in_name(s.skip(2));
        let rest = placeholders(s.skip(n));
        if k == 0 {
            let name = variable_of(p);
            assert(p == s.take(n));
            assert(s.skip(2)[0] == s[2]);
            assert(name.len() == r);
            assert forall|j: int| 0 <= j < name.len() implies 'a' <= #[trigger] name[j] <= 'z'
                || 'A' <= name[j] <= 'Z' || '0' <= name[j] <= '9' || name[j] == '_' by {
                assert(name[j] == s.skip(2)[j]);
                assert(in_name(s.skip(2)[j]));
            }
            assert(name[0] == s[2]);
            assert(p =~= placeholder(name));
            assert(s =~= Seq::<char>::empty() + p + s.skip(n));
        } else {
            assert(p == rest[k - 1]);
            law_placeholders_are_in_the_text(s.skip(n), k - 1);
            let tail = s.skip(n);
            let (a, b) = choose|a: Seq<char>, b: Seq<char>|
                tail == #[trigger] (a + placeholders(tail)[k - 1] + b);
            assert(tail == a + p + b);
            assert(s =~= s.take(n) + tail);
            assert(s.take(n) + (a + p + b) =~= (s.take(n) + a) + p + b);
            assert(s == (s.take(n) + a) + p + b);
        }
    } else {
        law_placeholders_are_in_the_text(s.skip(1), k);
        let tail = s.skip(1);
        let (a, b) = choose|a: Seq<char>, b: Seq<char>|
            tail == #[trigger] (a + placeholders(tail)[k] + b);
        assert(tail == a + p + b);
        assert(s =~= seq![s[0]] + tail);
        assert(seq![s[0]] + (a + p + b) =~= (seq![s[0]] + a) + p + b);
        assert(s == (seq![s[0]] + a) + p + b);
    }
}

/// Which variables are set is looked up one by one.
proof fn lemma_known_adds(a: Seq<Seq<char>>, b: Seq<Seq<char>>, env: Map<Seq<char>, Seq<char>>)
    ensures
        known(a + b, env) == known(a, env) + known(b, env),
    decreases b.len(),
{
    if b.len() == 0 {
        assert(a + b =~= a);
        assert(known(a, env) + known(b, env) =~= known(a, env));
    } else {
        lemma_known_adds(a, b.drop_last(), env);
        assert((a + b).drop_last() =~= a + b.drop_last());
        assert((a + b).last() == b.last());
        assert(known(a + b, env) =~= known(a, env) + known(b, env));
    }
}

proof fn lemma_known_one(p: Seq<char>, env: Map<Seq<char>, Seq<char>>)
    ensures
        known(seq![p], env) == (if env.contains_key(variable_of(p)) {
            seq![p]
        } else {
            Seq::empty()
        }),
{
    let none = Seq::<Seq<char>>::empty();
    assert(seq![p].drop_last() =~= none);
    assert(known(none, env) =~= none);
    assert(seq![p].last() == p);
    assert(none.push(p) =~= seq![p]);
}

/// What is asked of a text is asked of its placeholders.
proof fn lemma_replaceable_at(
    pre: Seq<char>,
    name: Seq<char>,
    post: Seq<char>,
    env: Map<Seq<char>, Seq<char>>,
)
    requires
        is_variable_name(name),
    ensures
        replaceable(pre + placeholder(name) + post, env) == replaceable(pre, env) + (
        if env.contains_key(name) {
            seq![placeholder(name)]
        } else {
            Seq::empty()
        }) + replaceable(post, env),
{
    lemma_placeholder(name);
    law_placeholder_is_found(pre, name, post);
    let p = placeholder(name);
    lemma_known_adds(placeholders(pre) + seq![p], placeholders(post), env);
    lemma_known_adds(placeholders(pre), seq![p], env);
    lemma_known_one(p, env);
}

/// A placeholder raises one question exactly if its variable is set. The question shows the
/// placeholder and the value, and stands between those of the text before and the text behind.
pub proof fn law_placeholder_raises_one_question(
    pre: Seq<char>,
    name: Seq<char>,
    post: Seq<char>,
    env: Map<Seq<char>, Seq<char>>,
)
    requires
        is_variable_name(name),
    ensures
        env.contains_key(name) ==> text_questions(pre + placeholder(name) + post, env)
            == text_questions(pre, env) + seq![
            "Replace '"@ + placeholder(name) + "' with '"@ + env[name] + "'?"@,
        ] + text_questions(post, env),
        !env.contains_key(name) ==> text_questions(pre + placeholder(name) + post, env)
            == text_questions(pre, env) + text_questions(post, env),
        !pre.contains('$') ==> text_questions(pre, env).len() == 0,
{
    lemma_placeholder(name);
    lemma_replaceable_at(pre, name, post, env);
    let p = placeholder(name);
    let whole = text_questions(pre + p + post, env);
    if env.contains_key(name) {
        assert(whole =~= text_questions(pre, env) + seq![
            "Replace '"@ + p + "' with '"@ + env[name] + "'?"@,
        ] + text_questions(post, env));
    } else {
        assert(whole =~= text_questions(pre, env) + text_questions(post, env));
    }
    if !pre.contains('$') {
        lemma_no_dollar(pre);
    }
}

/// One placeholder does not start where another one stands.
proof fn lemma_placeholder_not_at(name: Seq<char>, other: Seq<char>, rest: Seq<char>)
    requires
        is_variable_name(name),
        is_variable_name(other),
        name != other,
    ensures
        !text::begins(placeholder(other) + rest, placeholder(name)),
{
    lemma_placeholder(name);
    lemma_placeholder(other);
    let p = placeholder(name);
    let q = placeholder(other);
    let s = q + rest;
    if text::begins(s, p) {
        let t = s.take(p.len() as int);
        assert(forall|k: int| 0 <= k < p.len() ==> #[trigger] s[k] == p[k]) by {
            assert forall|k: int| 0 <= k < p.len() implies #[trigger] s[k] == p[k] by {
                assert(t[k] == s[k]);
            }
        }
        if name.len() < other.len() {
            assert(s[name.len() as int + 2] == q[name.len() as int + 2]);
            assert(q[name.len() as int + 2] == other[name.len() as int]);
        } else if name.len() > other.len() {
            assert(s[other.len() as int + 2] == q[other.len() as int + 2]);
            assert(p[other.len() as int + 2] == name[other.len() as int]);
        } else {
            assert forall|k: int| 0 <= k < name.len() implies name[k] == other[k] by {
                assert(s[k + 2] == p[k + 2]);
                assert(s[k + 2] == q[k + 2]);
            }
            assert(name =~= other);
        }
    }
}

/// Nothing starts where there is no dollar sign.
proof fn lemma_not_at(s: Seq<char>, j: int, name: Seq<char>)
    requires
        is_variable_name(name),
        0 <= j <= s.len(),
        j < s.len() ==> s[j] != '$',
    ensures
        !text::begins(s.skip(j), placeholder(name)),
{
    lemma_placeholder(name);
    if text::begins(s.skip(j), placeholder(name)) {
        assert(s.skip(j).take(placeholder(name).len() as int)[0] == s[j]);
    }
}

/// A placeholder that does not start before gives way where it stands.
proof fn lemma_replace_at(pre: Seq<char>, name: Seq<char>, post: Seq<char>, with: Seq<char>)
    requires
        is_variable_name(name),
        forall|j: int|
            0 <= j < pre.len() ==> !text::begins(
                #[trigger] (pre + placeholder(name)).skip(j),
                placeholder(name),
            ),
    ensures
        text::replaced(pre + placeholder(name) + post, placeholder(name), with) == pre + with
            + text::replaced(post, placeholder(name), with),
{
    lemma_placeholder(name);
    let p = placeholder(name);
    let n = pre.len() as int;
    assert((pre + p).skip(n) =~= p);
    assert(p.take(p.len() as int) =~= p);
    text::lemma_find_is(pre + p, p, n);
    text::law_replaced_from_the_left(pre, p, post, with);
}

/// A text without a dollar sign stays.
proof fn lemma_replace_free(s: Seq<char>, name: Seq<char>, with: Seq<char>)
    requires
        is_variable_name(name),
        !s.contains('$'),
    ensures
        text::replaced(s, placeholder(name), with) == s,
{
    lemma_placeholder(name);
    let p = placeholder(name);
    text::law_find_gives_first(s, p);
    if let Some(i) = text::find(s, p) {
        assert(s[i] == s.subrange(i, i + p.len())[0]);
        assert(s.contains(s[i]));
    }
    text::law_replaced_from_the_left(s, p, s, with);
}

/// A placeholder that the text before it, which is free of dollar signs, does not hide gives way.
proof fn lemma_replace_behind_free(
    pre: Seq<char>,
    name: Seq<char>,
    post: Seq<char>,
    with: Seq<char>,
)
    requires
        is_variable_name(name),
        !pre.contains('$'),
    ensures
        text::replaced(pre + placeholder(name) + post, placeholder(name), with) == pre + with
            + text::replaced(post, placeholder(name), with),
{
    let s = pre + placeholder(name);
    assert forall|j: int| 0 <= j < pre.len() implies !text::begins(
        #[trigger] s.skip(j),
        placeholder(name),
    ) by {
        assert(s[j] == pre[j]);
        assert(pre.contains(pre[j]));
        lemma_not_at(s, j, name);
    }
    lemma_replace_at(pre, name, post, with);
}

/// A confirmed placeholder gives way to the value of its variable, and one that is refused stays,
/// wherever in a text it stands. What stands before and behind it stays in either case.
pub proof fn law_confirmed_placeholder_is_filled(
    pre: Seq<char>,
    name: Seq<char>,
    post: Seq<char>,
    env: Map<Seq<char>, Seq<char>>,
    confirmed: bool,
)
    requires
        is_variable_name(name),
        env.contains_key(name),
        !pre.contains('$'),
        !post.contains('$'),
    ensures
        text_questions(pre + placeholder(name) + post, env).len() == 1,
        filled(
            pre + placeholder(name) + post,
            replaceable(pre + placeholder(name) + post, env),
            env,
            seq![confirmed],
        ) == (if confirmed {
            pre + env[name] + post
        } else {
            pre + placeholder(name) + post
        }),
{
    lemma_placeholder(name);
    let p = placeholder(name);
    let s = pre + p + post;
    let none = Seq::<Seq<char>>::empty();
    lemma_replaceable_at(pre, name, post, env);
    lemma_no_dollar(pre);
    lemma_no_dollar(post);
    assert(known(none, env) =~= none);
    assert(replaceable(s, env) =~= seq![p]);
    assert(seq![p].drop_last() =~= none);
    assert(seq![p].last() == p);
    assert(seq![confirmed].drop_last() =~= Seq::empty());
    assert(filled(s, none, env, Seq::empty()) == s);
    lemma_replace_behind_free(pre, name, post, env[name]);
    lemma_replace_free(post, name, env[name]);
}

/// Of two placeholders each goes by its own answer.
pub proof fn law_placeholders_go_by_their_answers(
    pre: Seq<char>,
    name: Seq<char>,
    mid: Seq<char>,
    other: Seq<char>,
    post: Seq<char>,
    env: Map<Seq<char>, Seq<char>>,
    first: bool,
    second: bool,
)
    requires
        is_variable_name(name),
        is_variable_name(other),
        name != other,
        env.contains_key(name),
        env.contains_key(other),
        !pre.contains('$'),
        !mid.contains('$'),
        !post.contains('$'),
        !env[name].contains('$'),
    ensures
        ({
            let s = pre + placeholder(name) + mid + placeholder(other) + post;
            let one = if first {
                env[name]
            } else {
                placeholder(name)
            };
            let two = if second {
                env[other]
            } else {
                placeholder(other)
            };
            filled(s, replaceable(s, env), env, seq![first, second]) == pre + one + mid + two + post
        }),
{
    lemma_placeholder(name);
    lemma_placeholder(other);
    let p = placeholder(name);
    let q = placeholder(other);
    let s = pre + p + mid + q + post;
    let none = Seq::<Seq<char>>::empty();
    let rest = mid + q + post;
    assert(s =~= pre + p + rest);
    lemma_replaceable_at(pre, name, rest, env);
    lemma_replaceable_at(mid, other, post, env);
    lemma_no_dollar(pre);
    lemma_no_dollar(mid);
    lemma_no_dollar(post);
    assert(known(none, env) =~= none);
    assert(replaceable(s, env) =~= seq![p, q]);
    assert(seq![p, q].drop_last() =~= seq![p]);
    assert(seq![p].drop_last() =~= none);
    assert(seq![first, second].drop_last() =~= seq![first]);
    assert(seq![first].drop_last() =~= Seq::empty());
    assert(filled(s, none, env, Seq::empty()) == s);
    lemma_replace_behind_free(pre, name, rest, env[name]);
    assert(text::replaced(rest, p, env[name]) == rest) by {
        text::law_find_gives_first(rest, p);
        if let Some(i) = text::find(rest, p) {
            assert(rest[i] == rest.subrange(i, i + p.len())[0]);
            if i < mid.len() {
                assert(mid.contains(mid[i]));
            } else if i == mid.len() {
                lemma_placeholder_not_at(name, other, post);
                assert(rest.skip(i) =~= q + post);
                assert(rest.skip(i).take(p.len() as int) =~= rest.subrange(i, i + p.len()));
            } else if i < mid.len() + q.len() {
                assert(rest[i] == q[i - mid.len()]);
            } else {
                assert(rest[i] == post[i - mid.len() - q.len()]);
                assert(post.contains(rest[i]));
            }
        }
        text::law_replaced_from_the_left(rest, p, rest, env[name]);
    }
    let one = if first {
        env[name]
    } else {
        p
    };
    let half = filled(s, seq![p], env, seq![first]);
    assert(seq![p].last() == p && seq![first].last() == first);
    assert(half =~= pre + one + rest);
    assert(seq![p, q].last() == q && seq![first, second].last() == second);
    let before = pre + one + mid;
    assert(half =~= before + q + post);
    let t = before + q;
    assert forall|j: int| 0 <= j < before.len() implies !text::begins(#[trigger] t.skip(j), q) by {
        if t[j] == '$' {
            if j < pre.len() {
                assert(pre.contains(pre[j]));
            } else if j < pre.len() + one.len() {
                assert(t[j] == one[j - pre.len()]);
                if first {
                    assert(env[name].contains(one[j - pre.len()]));
                } else {
                    assert(j == pre.len());
                    lemma_placeholder_not_at(other, name, mid + q);
                    assert(t.skip(j) =~= p + (mid + q));
                }
            } else {
                assert(t[j] == mid[j - pre.len() - one.len()]);
                assert(mid.contains(t[j]));
            }
        } else {
            lemma_not_at(t, j, other);
        }
    }
    lemma_replace_at(before, other, post, env[other]);
    lemma_replace_free(post, other, env[other]);
    assert(filled(s, seq![p, q], env, seq![first, second]) =~= pre + one + mid + (if second {
        env[other]
    } else {
        q
    }) + post);
}

/// A text between quotes is meant as it stands. A text without quotes is meant up to a comment,
/// without the white space before it.
pub proof fn law_values_are_meant(inner: Seq<char>, value: Seq<char>, gap: Seq<char>, note: Seq<char>)
    requires
        text::is_tight(value),
        text::is_blank(gap),
        !value.contains('#'),
        value.len() > 0 ==> value[0] != '"' && value[0] != '\'',
    ensures
        meant("\""@ + inner + "\""@) == inner,
        meant("'"@ + inner + "'"@) == inner,
        meant(value) == value,
        meant(value + gap + "#"@ + note) == value,
{
    reveal_strlit("\"");
    reveal_strlit("'");
    reveal_strlit("#");
    let double = "\""@ + inner + "\""@;
    let single = "'"@ + inner + "'"@;
    assert(double[0] == '"' && double.last() == '"');
    assert(single[0] == '\'' && single.last() == '\'');
    assert(double.subrange(1, double.len() - 1) =~= inner);
    assert(single.subrange(1, single.len() - 1) =~= inner);
    text::law_holds_characters(value, "#"@);
    assert("#"@[0] == '#');
    let noted = value + gap + "#"@ + note;
    let before = value + gap;
    assert forall|i: int| 0 <= i < before.len() implies before[i] != '#' by {
        if i < value.len() {
            assert(value.contains(value[i]));
        } else {
            assert(text::is_space(gap[i - value.len()]));
        }
    }
    text::law_cut_at_character(before, "#"@, note);
    text::law_trimming_undoes_padding(Seq::empty(), value, gap);
    assert(Seq::<char>::empty() + value + gap =~= before);
    if value.len() > 0 {
        assert(noted[0] == value[0]);
    } else if gap.len() > 0 {
        assert(noted[0] == gap[0]);
        assert(text::is_space(gap[0]));
    } else {
        assert(noted[0] == '#');
    }
}

/// A line of a `.env` file assigns the meaning of what stands right of its first equals sign to the
/// name left of it. White space around the name, the value and the line does not count.
pub proof fn law_line_assigns(
    indent: Seq<char>,
    name: Seq<char>,
    left: Seq<char>,
    right: Seq<char>,
    value: Seq<char>,
    end: Seq<char>,
)
    requires
        text::is_blank(indent),
        text::is_blank(left),
        text::is_blank(right),
        text::is_blank(end),
        text::is_tight(name),
        text::is_tight(value),
        name.len() == 0 ==> left.len() == 0,
        name.len() > 0 ==> name[0] != '#',
        !name.contains('='),
    ensures
        assignment(indent + name + left + "="@ + right + value + end) == Some((name, meant(value))),
{
    reveal_strlit("=");
    assert("="@[0] == '=');
    let nothing = Seq::<char>::empty();
    let line = indent + name + left + "="@ + right + value + end;
    let (behind, pad) = if value.len() > 0 {
        (right + value, end)
    } else {
        (nothing, right + end)
    };
    let core = name + left + "="@ + behind;
    assert(line =~= indent + core + pad);
    assert(text::is_blank(pad)) by {
        assert forall|i: int| 0 <= i < pad.len() implies text::is_space(#[trigger] pad[i]) by {
            if value.len() == 0 {
                if i < right.len() {
                    assert(pad[i] == right[i]);
                } else {
                    assert(pad[i] == end[i - right.len()]);
                }
            }
        }
    }
    if name.len() > 0 {
        assert(core[0] == name[0]);
    } else {
        assert(core[0] == '=');
    }
    if value.len() > 0 {
        assert(core[core.len() - 1] == value[value.len() - 1]);
    } else {
        assert(core[core.len() - 1] == '=');
    }
    assert(text::is_tight(core));
    text::law_trimming_undoes_padding(indent, core, pad);
    let before = name + left;
    assert forall|i: int| 0 <= i < before.len() implies before[i] != '=' by {
        if i < name.len() {
            assert(name.contains(name[i]));
        } else {
            assert(text::is_space(left[i - name.len()]));
        }
    }
    text::law_cut_at_character(before, "="@, behind);
    text::law_trimming_undoes_padding(nothing, name, left);
    assert(nothing + name + left =~= before);
    if value.len() > 0 {
        text::law_trimming_undoes_padding(right, value, nothing);
        assert(right + value + nothing =~= behind);
    } else {
        text::law_trimming_undoes_padding(nothing, value, nothing);
        assert(nothing + value + nothing =~= behind);
        assert(value =~= nothing);
    }
}

/// Blank lines, comments and lines without an equals sign assign nothing.
pub proof fn law_other_lines_assign_nothing(line: Seq<char>, indent: Seq<char>, note: Seq<char>)
    requires
        text::is_blank(indent),
    ensures
        assignment(indent) is None,
        assignment(indent + "#"@ + note) is None,
        !line.contains('=') ==> assignment(line) is None,
{
    reveal_strlit("=");
    reveal_strlit("#");
    assert("="@[0] == '=');
    let nothing = Seq::<char>::empty();
    text::law_trimming_undoes_padding(indent, nothing, nothing);
    assert(indent + nothing + nothing =~= indent);
    let comment = indent + "#"@ + note;
    text::law_trimmed_is_tight(comment);
    let core = text::trimmed(comment);
    let (a, b) = choose|a: Seq<char>, b: Seq<char>|
        text::is_blank(a) && text::is_blank(b) && comment == #[trigger] (a + core + b);
    let n = indent.len() as int;
    assert(comment[n] == '#');
    assert(!text::is_space('#'));
    if n < a.len() {
        assert(a[n] == comment[n]);
    } else if n >= a.len() + core.len() {
        assert(b[n - a.len() - core.len()] == comment[n]);
    } else {
        if a.len() < n {
            assert(comment[a.len() as int] == core[0]);
            assert(comment[a.len() as int] == indent[a.len() as int]);
        }
        assert(core[0] == '#');
    }
    if !line.contains('=') {
        text::law_trimmed_is_tight(line);
        let content = text::trimmed(line);
        let (x, y) = choose|x: Seq<char>, y: Seq<char>|
            text::is_blank(x) && text::is_blank(y) && line == #[trigger] (x + content + y);
        text::law_holds_characters(content, "="@);
        if content.contains('=') {
            let i = content.index_of('=');
            assert(line[x.len() + i] == '=');
        }
        text::law_cut_takes_apart(content, "="@);
    }
}

/// A line sets the one variable that it names, unless its question was refused.
pub proof fn law_line_sets_one_variable(
    vars: Map<Seq<char>, Seq<char>>,
    key: String,
    value: String,
    question: String,
    confirmed: bool,
    other: Seq<char>,
)
    ensures
        settled(vars, EnvLine::Ignore, confirmed) == vars,
        settled(vars, EnvLine::Assign { key, value }, confirmed).contains_pair(key@, value@),
        settled(vars, EnvLine::Ask { key, value, question }, true).contains_pair(key@, value@),
        settled(vars, EnvLine::Ask { key, value, question }, false) == vars,
        other != key@ ==> settled(vars, EnvLine::Assign { key, value }, confirmed).contains_key(
            other,
        ) == vars.contains_key(other) && settled(vars, EnvLine::Assign { key, value }, confirmed)[other]
            == vars[other],
        other != key@ ==> settled(vars, EnvLine::Ask { key, value, question }, true).contains_key(
            other,
        ) == vars.contains_key(other) && settled(vars, EnvLine::Ask { key, value, question }, true)[other]
            == vars[other],
{
}

/// The question about a variable names it, then the value it has, then the one it would get.
pub proof fn law_overwriting_is_asked_for(key: Seq<char>, existing: Seq<char>, value: Seq<char>)
    ensures
        overwrite_question(key, existing, value) == "Environment variable '"@ + key
            + "' is already set to '"@ + existing + "'. Overwrite with '"@ + value
            + "' for variable substitution?"@,
{
}

/// A variable that stands in a text twice is replaced in both places if either question is answered
/// yes.
pub proof fn law_repeated_placeholder_is_filled_everywhere(
    pre: Seq<char>,
    name: Seq<char>,
    mid: Seq<char>,
    post: Seq<char>,
    env: Map<Seq<char>, Seq<char>>,
    first: bool,
    second: bool,
)
    requires
        is_variable_name(name),
        env.contains_key(name),
        first || second,
        !pre.contains('$'),
        !mid.contains('$'),
        !post.contains('$'),
        !env[name].contains('$'),
    ensures
        ({
            let s = pre + placeholder(name) + mid + placeholder(name) + post;
            filled(s, replaceable(s, env), env, seq![first, second]) == pre + env[name] + mid
                + env[name] + post
        }),
{
    lemma_placeholder(name);
    let p = placeholder(name);
    let v = env[name];
    let s = pre + p + mid + p + post;
    let none = Seq::<Seq<char>>::empty();
    let rest = mid + p + post;
    let goal = pre + v + mid + v + post;
    assert(s =~= pre + p + rest);
    lemma_replaceable_at(pre, name, rest, env);
    lemma_replaceable_at(mid, name, post, env);
    lemma_no_dollar(pre);
    lemma_no_dollar(mid);
    lemma_no_dollar(post);
    assert(known(none, env) =~= none);
    assert(replaceable(s, env) =~= seq![p, p]);
    assert(seq![p, p].drop_last() =~= seq![p]);
    assert(seq![p].drop_last() =~= none);
    assert(seq![first, second].drop_last() =~= seq![first]);
    assert(seq![first].drop_last() =~= Seq::empty());
    assert(filled(s, none, env, Seq::empty()) == s);
    lemma_replace_behind_free(pre, name, rest, v);
    lemma_replace_behind_free(mid, name, post, v);
    lemma_replace_free(post, name, v);
    assert(text::replaced(s, p, v) =~= goal);
    assert forall|i: int| 0 <= i < goal.len() implies goal[i] != '$' by {
        let a = pre.len() as int;
        let b = a + v.len();
        let c = b + mid.len();
        let d = c + v.len();
        if i < a {
            assert(pre.contains(pre[i]));
        } else if i < b {
            assert(v.contains(v[i - a]));
        } else if i < c {
            assert(mid.contains(mid[i - b]));
        } else if i < d {
            assert(v.contains(v[i - c]));
        } else {
            assert(post.contains(post[i - d]));
        }
    }
    lemma_replace_free(goal, name, v);
    assert(seq![p].last() == p && seq![first].last() == first);
    assert(seq![p, p].last() == p && seq![first, second].last() == second);
    let half = filled(s, seq![p], env, seq![first]);
    assert(half == (if first {
        goal
    } else {
        s
    }));
    assert(filled(s, seq![p, p], env, seq![first, second]) == (if second {
        text::replaced(half, p, v)
    } else {
        half
    }));
}

/// Answers are taken one by one: each confirmed placeholder is replaced throughout what the answers
/// before it made of the text, and a refused one changes nothing.
pub proof fn law_answers_are_taken_one_by_one(
    text: Seq<char>,
    vars: Seq<Seq<char>>,
    var: Seq<char>,
    env: Map<Seq<char>, Seq<char>>,
    answers: Seq<bool>,
)
    ensures
        filled(text, Seq::empty(), env, Seq::empty()) == text,
        filled(text, vars.push(var), env, answers.push(false)) == filled(text, vars, env, answers),
        filled(text, vars.push(var), env, answers.push(true)) == text::replaced(
            filled(text, vars, env, answers),
            var,
            env[variable_of(var)],
        ),
{
    assert(vars.push(var).drop_last() =~= vars);
    assert(answers.push(false).drop_last() =~= answers);
    assert(answers.push(true).drop_last() =~= answers);
}

/// A value is quoted only if it starts and ends with the same quote and something can stand between
/// them. Any other value is meant as it stands, or up to a comment.
pub proof fn law_other_values_are_meant_as_they_stand(value: Seq<char>)
    requires
        value.len() > 1 ==> !(value[0] == '"' && value[value.len() - 1] == '"') && !(value[0]
            == '\'' && value[value.len() - 1] == '\''),
        !value.contains('#'),
    ensures
        meant(value) == value,
{
    reveal_strlit("#");
    assert("#"@[0] == '#');
    text::law_holds_characters(value, "#"@);
}

/// A comment ends a value that does not both start and end with a quote.
pub proof fn law_comments_end_values(value: Seq<char>, note: Seq<char>)
    requires
        !value.contains('#'),
        value.len() > 0 ==> !(value[0] == '"' && (value + "#"@ + note).last() == '"') && !(value[0]
            == '\'' && (value + "#"@ + note).last() == '\''),
    ensures
        meant(value + "#"@ + note) == text::trimmed(value),
{
    reveal_strlit("#");
    assert("#"@[0] == '#');
    text::law_cut_at_character(value, "#"@, note);
    let whole = value + "#"@ + note;
    if value.len() > 0 {
        assert(whole[0] == value[0]);
    } else {
        assert(whole[0] == '#');
    }
}

} // verus!
