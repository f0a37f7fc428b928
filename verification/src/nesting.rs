//! How deep documents nest. Readers and writers of documents go down once for each level, so what
//! nests too deep is refused before they are called.
use crate::documents::{self, bson_parts};
use crate::text::chars_of;
use vstd::prelude::*;

verus! {

/// How many levels a document that is written may have.
pub const DEPTH_LIMIT: usize = 512;

/// How many levels a BSON document that is read may have.
pub const BSON_LIMIT: usize = 128;

/// How many levels one statement of a TOML text may open.
pub const TOML_LIMIT: usize = 128;

/// What is found of the levels of a BSON document.
#[derive(Debug, Clone, Copy, PartialEq, Eq, Structural)]
pub enum Shape {
    /// They are within the limit.
    Fits,
    /// There are too many of them.
    TooDeep,
    /// They cannot be told.
    Malformed,
}

/// The shape of a BSON document that may have `limit` levels: that of the first document inside it
/// that is no good, if there is one.
pub open spec fn bson_shape(bytes: Seq<u8>, limit: nat) -> Shape
    decreases limit, 0nat,
{
    if limit == 0 {
        Shape::TooDeep
    } else {
        match documents::bson_elements(bytes) {
            Some(parts) => parts_shape(parts, (limit - 1) as nat),
            None => Shape::Malformed,
        }
    }
}

/// The shape of the documents among the elements of a document.
pub open spec fn parts_shape(parts: Seq<Option<Seq<u8>>>, limit: nat) -> Shape
    decreases limit, 1 + parts.len(),
{
    if parts.len() == 0 {
        Shape::Fits
    } else {
        match (parts_shape(parts.drop_last(), limit), parts.last()) {
            (Shape::Fits, Some(inner)) => bson_shape(inner, limit),
            (shape, _) => shape,
        }
    }
}

/// Why a BSON document is no good.
#[derive(Debug)]
pub enum BsonProblem {
    TooDeep,
    Malformed(bson::raw::Error),
}

/// The result states the shape.
pub open spec fn is_shape(r: Result<(), BsonProblem>, shape: Shape) -> bool {
    match r {
        Ok(_) => shape == Shape::Fits,
        Err(BsonProblem::TooDeep) => shape == Shape::TooDeep,
        Err(BsonProblem::Malformed(_)) => shape == Shape::Malformed,
    }
}

/// One bad part spoils the whole.
proof fn lemma_bad_part(parts: Seq<Option<Seq<u8>>>, k: int, limit: nat)
    requires
        0 <= k <= parts.len(),
        parts_shape(parts.take(k), limit) != Shape::Fits,
    ensures
        parts_shape(parts, limit) == parts_shape(parts.take(k), limit),
    decreases parts.len(),
{
    if k == parts.len() {
        assert(parts.take(k) =~= parts);
    } else {
        assert(parts.drop_last().take(k) =~= parts.take(k));
        lemma_bad_part(parts.drop_last(), k, limit);
    }
}

/// Checks that a BSON document has no more than `limit` levels.
pub fn check_bson(bytes: &[u8], limit: usize) -> (r: Result<(), BsonProblem>)
    ensures
        is_shape(r, bson_shape(bytes@, limit as nat)),
    decreases limit,
{
    if limit == 0 {
        return Err(BsonProblem::TooDeep);
    }
    let parts = match bson_parts(bytes) {
        Ok(parts) => parts,
        Err(e) => {
            return Err(BsonProblem::Malformed(e));
        },
    };
    let below: usize = limit - 1;
    let ghost all = documents::parts_view(parts@);
    let mut i: usize = 0;
    assert(all.take(0).len() == 0);
    while i < parts.len()
        invariant
            i <= parts@.len() == all.len(),
            all == documents::parts_view(parts@),
            documents::bson_elements(bytes@) == Some(all),
            below == limit - 1,
            parts_shape(all.take(i as int), below as nat) == Shape::Fits,
        decreases parts@.len() - i,
    {
        proof {
            assert(all.take(i + 1).drop_last() =~= all.take(i as int));
            assert(all.take(i + 1).last() == all[i as int]);
        }
        if let Some(inner) = &parts[i] {
            let inner_result = check_bson(inner.as_slice(), below);
            if inner_result.is_err() {
                proof {
                    lemma_bad_part(all, i + 1, below as nat);
                }
                return inner_result;
            }
        }
        i += 1;
    }
    assert(all.take(all.len() as int) =~= all);
    Ok(())
}

/// What a place in a TOML text belongs to.
#[derive(Debug, Clone, Copy, PartialEq, Eq, Structural)]
pub enum Mode {
    Code,
    Comment,
    Basic,
    Literal,
    MultiBasic,
    MultiLiteral,
}

/// Three of a quote stand at a place.
pub open spec fn is_triple(s: Seq<char>, at: int, quote: char) -> bool {
    &&& at + 2 < s.len()
    &&& s[at] == quote
    &&& s[at + 1] == quote
    &&& s[at + 2] == quote
}

/// The end of three to five quotes, of which the last three close a text of several lines.
pub open spec fn after_triple(s: Seq<char>, at: int, quote: char) -> int {
    if at + 3 < s.len() && s[at + 3] == quote {
        if at + 4 < s.len() && s[at + 4] == quote {
            at + 5
        } else {
            at + 4
        }
    } else {
        at + 3
    }
}

/// Where the next character or quote stands, and what it belongs to.
pub open spec fn lex(s: Seq<char>, at: int, mode: Mode) -> (int, Mode) {
    let c = s[at];
    match mode {
        Mode::Code => if c == '#' {
            (at + 1, Mode::Comment)
        } else if is_triple(s, at, '"') {
            (at + 3, Mode::MultiBasic)
        } else if is_triple(s, at, '\'') {
            (at + 3, Mode::MultiLiteral)
        } else if c == '"' {
            (at + 1, Mode::Basic)
        } else if c == '\'' {
            (at + 1, Mode::Literal)
        } else {
            (at + 1, Mode::Code)
        },
        Mode::Comment => if c == '\n' {
            (at + 1, Mode::Code)
        } else {
            (at + 1, mode)
        },
        Mode::Basic => if c == '\\' {
            (at + 2, mode)
        } else if c == '"' {
            (at + 1, Mode::Code)
        } else {
            (at + 1, mode)
        },
        Mode::Literal => if c == '\'' {
            (at + 1, Mode::Code)
        } else {
            (at + 1, mode)
        },
        Mode::MultiBasic => if c == '\\' {
            (at + 2, mode)
        } else if is_triple(s, at, '"') {
            (after_triple(s, at, '"'), Mode::Code)
        } else {
            (at + 1, mode)
        },
        Mode::MultiLiteral => if is_triple(s, at, '\'') {
            (after_triple(s, at, '\''), Mode::Code)
        } else {
            (at + 1, mode)
        },
    }
}

/// The open levels after a character of code. A level is the statement itself or a bracket, and
/// counts the dots since its last separator: each dot of a key opens a table.
pub open spec fn levels_after(levels: Seq<nat>, c: char) -> Seq<nat> {
    if c == '[' || c == '{' {
        levels.push(0)
    } else if (c == ']' || c == '}') && levels.len() > 1 {
        levels.drop_last()
    } else if c == '.' && levels.len() > 0 {
        levels.drop_last().push(levels.last() + 1)
    } else if (c == ',' || (c == '\n' && levels.len() == 1)) && levels.len() > 0 {
        levels.drop_last().push(0)
    } else {
        levels
    }
}

/// How many tables and arrays the open levels stand for.
pub open spec fn weight(levels: Seq<nat>) -> nat
    decreases levels.len(),
{
    if levels.len() == 0 {
        0
    } else {
        weight(levels.drop_last()) + levels.last() + 1
    }
}

/// From a place on, a TOML text never has more than `limit` tables and arrays open at once.
pub open spec fn stays_within(
    s: Seq<char>,
    at: int,
    mode: Mode,
    levels: Seq<nat>,
    limit: nat,
) -> bool
    decreases s.len() + 1 - at,
{
    &&& weight(levels) <= limit
    &&& 0 <= at < s.len() ==> {
        let (next, next_mode) = lex(s, at, mode);
        let next_levels = if mode == Mode::Code || (mode == Mode::Comment && s[at] == '\n') {
            levels_after(levels, s[at])
        } else {
            levels
        };
        stays_within(s, next, next_mode, next_levels, limit)
    }
}

/// No statement of a TOML text opens more than `limit` tables and arrays.
pub open spec fn toml_fits(s: Seq<char>, limit: nat) -> bool {
    stays_within(s, 0, Mode::Code, seq![0nat], limit)
}

/// Whether three of a quote stand at a place.
fn triple(cs: &Vec<char>, at: usize, quote: char) -> (r: bool)
    requires
        at < cs@.len(),
    ensures
        r == is_triple(cs@, at as int, quote),
{
    let rest: usize = cs.len() - at;
    rest > 2 && cs[at] == quote && cs[at + 1] == quote && cs[at + 2] == quote
}

/// The end of three to five quotes.
fn end_of_triple(cs: &Vec<char>, at: usize, quote: char) -> (r: usize)
    requires
        is_triple(cs@, at as int, quote),
    ensures
        r == after_triple(cs@, at as int, quote),
        r <= cs@.len(),
{
    let rest: usize = cs.len() - at;
    if rest > 3 && cs[at + 3] == quote {
        if rest > 4 && cs[at + 4] == quote {
            at + 5
        } else {
            at + 4
        }
    } else {
        at + 3
    }
}

/// Where the next character or quote stands, and what it belongs to. A place behind the end is
/// given as the end.
fn next_place(cs: &Vec<char>, at: usize, mode: Mode) -> (r: (usize, Mode))
    requires
        at < cs@.len(),
    ensures
        r.0 <= cs@.len(),
        r.0 == lex(cs@, at as int, mode).0 || (r.0 == cs@.len() && lex(cs@, at as int, mode).0
            > cs@.len()),
        r.1 == lex(cs@, at as int, mode).1,
{
    let c = cs[at];
    let total: usize = cs.len();
    let skip: usize = if total - at > 1 {
        at + 2
    } else {
        total
    };
    match mode {
        Mode::Code => {
            if c == '#' {
                (at + 1, Mode::Comment)
            } else if triple(cs, at, '"') {
                (at + 3, Mode::MultiBasic)
            } else if triple(cs, at, '\'') {
                (at + 3, Mode::MultiLiteral)
            } else if c == '"' {
                (at + 1, Mode::Basic)
            } else if c == '\'' {
                (at + 1, Mode::Literal)
            } else {
                (at + 1, Mode::Code)
            }
        },
        Mode::Comment => {
            if c == '\n' {
                (at + 1, Mode::Code)
            } else {
                (at + 1, mode)
            }
        },
        Mode::Basic => {
            if c == '\\' {
                (skip, mode)
            } else if c == '"' {
                (at + 1, Mode::Code)
            } else {
                (at + 1, mode)
            }
        },
        Mode::Literal => {
            if c == '\'' {
                (at + 1, Mode::Code)
            } else {
                (at + 1, mode)
            }
        },
        Mode::MultiBasic => {
            if c == '\\' {
                (skip, mode)
            } else if triple(cs, at, '"') {
                (end_of_triple(cs, at, '"'), Mode::Code)
            } else {
                (at + 1, mode)
            }
        },
        Mode::MultiLiteral => {
            if triple(cs, at, '\'') {
                (end_of_triple(cs, at, '\''), Mode::Code)
            } else {
                (at + 1, mode)
            }
        },
    }
}

/// What the counts of open levels say.
spec fn levels_view(levels: Seq<usize>) -> Seq<nat> {
    levels.map_values(|n: usize| n as nat)
}

/// Whether no statement of a TOML text opens more than `limit` tables and arrays.
pub fn toml_nests_within(s: &str, limit: usize) -> (r: bool)
    requires
        limit < usize::MAX - 2,
    ensures
        r == toml_fits(s@, limit as nat),
{
    let cs = chars_of(s);
    let mut levels: Vec<usize> = Vec::new();
    levels.push(0);
    let mut open: usize = 1;
    let mut at: usize = 0;
    let mut mode = Mode::Code;
    proof {
        assert(levels_view(levels@) =~= seq![0nat]);
        assert(seq![0nat].drop_last() =~= Seq::empty());
        reveal_with_fuel(weight, 2);
    }
    while at < cs.len()
        invariant
            at <= cs@.len(),
            cs@ == s@,
            limit < usize::MAX - 2,
            levels@.len() > 0,
            open == weight(levels_view(levels@)),
            toml_fits(s@, limit as nat) == stays_within(
                s@,
                at as int,
                mode,
                levels_view(levels@),
                limit as nat,
            ),
        decreases cs@.len() - at,
    {
        if open > limit {
            return false;
        }
        let c = cs[at];
        let ghost before = levels_view(levels@);
        let (next, next_mode) = next_place(&cs, at, mode);
        if mode == Mode::Code || (mode == Mode::Comment && c == '\n') {
            let n: usize = levels.len();
            assert(before.len() == n);
            let last: usize = levels[n - 1];
            assert(before.last() == last as nat);
            assert(weight(before) == weight(before.drop_last()) + last + 1);
            if c == '[' || c == '{' {
                levels.push(0);
                open += 1;
                proof {
                    assert(levels_view(levels@) =~= before.push(0));
                    assert(before.push(0).drop_last() =~= before);
                }
            } else if (c == ']' || c == '}') && n > 1 {
                let _ = levels.pop();
                open -= last + 1;
                proof {
                    assert(levels_view(levels@) =~= before.drop_last());
                }
            } else if c == '.' {
                levels.set(n - 1, last + 1);
                open += 1;
                proof {
                    let after = before.drop_last().push((last + 1) as nat);
                    assert(levels_view(levels@) =~= after);
                    assert(after.drop_last() =~= before.drop_last());
                }
            } else if c == ',' || (c == '\n' && n == 1) {
                levels.set(n - 1, 0);
                open -= last;
                proof {
                    let after = before.drop_last().push(0);
                    assert(levels_view(levels@) =~= after);
                    assert(after.drop_last() =~= before.drop_last());
                }
            }
            assert(levels_view(levels@) == levels_after(before, c));
        }
        proof {
            let (place, _) = lex(s@, at as int, mode);
            if place > s@.len() {
                assert(stays_within(
                    s@,
                    place,
                    next_mode,
                    levels_view(levels@),
                    limit as nat,
                ) == stays_within(s@, next as int, next_mode, levels_view(levels@), limit as nat));
            }
        }
        at = next;
        mode = next_mode;
    }
    open <= limit
}

/// Bytes of JSON texts.
pub const QUOTE: u8 = 0x22;

pub const BACKSLASH: u8 = 0x5c;

pub const COLON: u8 = 0x3a;

pub const LETTER_U: u8 = 0x75;

pub const ZERO: u8 = 0x30;

/// From a place on, a JSON text has a key that holds a NUL. `inside` says that the place lies in a
/// text, and `found` that a NUL was seen in it.
pub open spec fn nul_key_from(json: Seq<u8>, at: int, inside: bool, found: bool) -> bool
    decreases json.len() + 1 - at,
{
    if at < 0 || at >= json.len() {
        false
    } else if !inside {
        nul_key_from(json, at + 1, json[at] == QUOTE, false)
    } else if json[at] == BACKSLASH {
        nul_key_from(json, at + 2, true, found || is_nul_escape(json, at))
    } else if json[at] == QUOTE {
        (found && at + 1 < json.len() && json[at + 1] == COLON) || nul_key_from(
            json,
            at + 1,
            false,
            false,
        )
    } else {
        nul_key_from(json, at + 1, true, found)
    }
}

/// The escape for a NUL stands at a place.
pub open spec fn is_nul_escape(json: Seq<u8>, at: int) -> bool {
    &&& at + 5 < json.len()
    &&& json[at + 1] == LETTER_U
    &&& forall|i: int| at + 2 <= i < at + 6 ==> #[trigger] json[i] == ZERO
}

/// A compact JSON text has a key that holds a NUL: a text with the escape for it, right before a
/// colon.
pub open spec fn has_nul_key(json: Seq<u8>) -> bool {
    nul_key_from(json, 0, false, false)
}

/// Whether a compact JSON text has a key that holds a NUL.
pub fn find_nul_key(json: &Vec<u8>) -> (r: bool)
    ensures
        r == has_nul_key(json@),
{
    let mut at: usize = 0;
    let mut inside = false;
    let mut found = false;
    while at < json.len()
        invariant
            at <= json@.len(),
            has_nul_key(json@) == nul_key_from(json@, at as int, inside, found),
        decreases json@.len() - at,
    {
        let rest: usize = json.len() - at;
        let c = json[at];
        if !inside {
            inside = c == QUOTE;
            found = false;
            at += 1;
        } else if c == BACKSLASH {
            let nul = rest > 5 && json[at + 1] == LETTER_U && json[at + 2] == ZERO && json[at + 3]
                == ZERO && json[at + 4] == ZERO && json[at + 5] == ZERO;
            assert(nul == is_nul_escape(json@, at as int));
            found = found || nul;
            if rest > 1 {
                at += 2;
            } else {
                assert(!nul_key_from(json@, at + 2, true, found));
                return false;
            }
        } else if c == QUOTE {
            if found && rest > 1 && json[at + 1] == COLON {
                return true;
            }
            inside = false;
            found = false;
            at += 1;
        } else {
            at += 1;
        }
    }
    false
}

/// What nests within a limit nests within any greater one.
pub proof fn law_greater_limits_admit_more(
    s: Seq<char>,
    at: int,
    mode: Mode,
    levels: Seq<nat>,
    limit: nat,
    more: nat,
)
    requires
        limit <= more,
        stays_within(s, at, mode, levels, limit),
    ensures
        stays_within(s, at, mode, levels, more),
    decreases s.len() + 1 - at,
{
    if 0 <= at < s.len() {
        let (next, next_mode) = lex(s, at, mode);
        let next_levels = if mode == Mode::Code || (mode == Mode::Comment && s[at] == '\n') {
            levels_after(levels, s[at])
        } else {
            levels
        };
        law_greater_limits_admit_more(s, next, next_mode, next_levels, limit, more);
    }
}

/// A TOML text without brackets and dots has one level, and is never refused.
pub proof fn law_flat_toml_fits(s: Seq<char>, limit: nat)
    requires
        limit >= 1,
        forall|i: int|
            0 <= i < s.len() ==> #[trigger] s[i] != '[' && s[i] != '{' && s[i] != '.',
    ensures
        toml_fits(s, limit),
{
    lemma_flat(s, 0, Mode::Code, limit);
}

proof fn lemma_flat(s: Seq<char>, at: int, mode: Mode, limit: nat)
    requires
        limit >= 1,
        0 <= at,
        forall|i: int|
            0 <= i < s.len() ==> #[trigger] s[i] != '[' && s[i] != '{' && s[i] != '.',
    ensures
        stays_within(s, at, mode, seq![0nat], limit),
    decreases s.len() + 1 - at,
{
    let levels = seq![0nat];
    assert(levels.drop_last() =~= Seq::empty());
    assert(weight(Seq::<nat>::empty()) == 0);
    assert(levels.last() == 0);
    assert(weight(levels) == 1);
    if at < s.len() {
        let (next, next_mode) = lex(s, at, mode);
        assert(s[at] != '[' && s[at] != '{' && s[at] != '.');
        assert(levels.drop_last().push(0nat) =~= levels);
        assert(levels_after(levels, s[at]) =~= levels);
        lemma_flat(s, next, next_mode, limit);
    }
}

/// An opening bracket outside texts and comments goes one level down, and each dot of a key does;
/// what is open is never more than the limit.
pub proof fn law_levels_are_counted(s: Seq<char>, at: int, levels: Seq<nat>, limit: nat)
    requires
        0 <= at < s.len(),
        levels.len() > 0,
        stays_within(s, at, Mode::Code, levels, limit),
    ensures
        weight(levels) <= limit,
        s[at] == '[' || s[at] == '{' || s[at] == '.' ==> weight(levels) + 1 <= limit,
{
    let after = levels_after(levels, s[at]);
    let (next, next_mode) = lex(s, at, Mode::Code);
    assert(stays_within(s, next, next_mode, after, limit));
    if s[at] == '[' || s[at] == '{' {
        assert(levels.push(0nat).drop_last() =~= levels);
    } else if s[at] == '.' {
        let more = levels.drop_last().push(levels.last() + 1);
        assert(more.drop_last() =~= levels.drop_last());
    }
}

/// A BSON document has one level more than what stands in it: it fits exactly if its elements can
/// be told and each document among them fits one level less.
pub proof fn law_bson_levels_are_counted(bytes: Seq<u8>, limit: nat)
    ensures
        bson_shape(bytes, 0) == Shape::TooDeep,
        documents::bson_elements(bytes) is None && limit > 0 ==> bson_shape(bytes, limit)
            == Shape::Malformed,
        documents::bson_elements(bytes) matches Some(parts) ==> limit > 0 ==> (bson_shape(
            bytes,
            limit,
        ) == Shape::Fits <==> forall|i: int|
            0 <= i < parts.len() && (#[trigger] parts[i]) is Some ==> bson_shape(
                parts[i]->Some_0,
                (limit - 1) as nat,
            ) == Shape::Fits),
{
    if limit > 0 {
        if let Some(parts) = documents::bson_elements(bytes) {
            lemma_parts_fit(parts, (limit - 1) as nat);
        }
    }
}

proof fn lemma_parts_fit(parts: Seq<Option<Seq<u8>>>, limit: nat)
    ensures
        parts_shape(parts, limit) == Shape::Fits <==> forall|i: int|
            0 <= i < parts.len() && (#[trigger] parts[i]) is Some ==> bson_shape(
                parts[i]->Some_0,
                limit,
            ) == Shape::Fits,
    decreases parts.len(),
{
    if parts.len() > 0 {
        let init = parts.drop_last();
        let last = parts.len() - 1;
        lemma_parts_fit(init, limit);
        assert(parts.last() == parts[last]);
        if parts_shape(parts, limit) == Shape::Fits {
            assert forall|i: int|
                0 <= i < parts.len() && (#[trigger] parts[i]) is Some implies bson_shape(
                parts[i]->Some_0,
                limit,
            ) == Shape::Fits by {
                if i < last {
                    assert(init[i] == parts[i]);
                }
            }
        }
        if forall|i: int|
            0 <= i < parts.len() && (#[trigger] parts[i]) is Some ==> bson_shape(
                parts[i]->Some_0,
                limit,
            ) == Shape::Fits {
            assert forall|i: int|
                0 <= i < init.len() && (#[trigger] init[i]) is Some implies bson_shape(
                init[i]->Some_0,
                limit,
            ) == Shape::Fits by {
                assert(init[i] == parts[i]);
            }
            if parts[last] is Some {
                assert(bson_shape(parts[last]->Some_0, limit) == Shape::Fits);
            }
        }
    }
}

/// Plain bytes of a text are passed over.
proof fn lemma_plain_bytes(json: Seq<u8>, from: int, to: int, found: bool)
    requires
        0 <= from <= to <= json.len(),
        forall|i: int| from <= i < to ==> #[trigger] json[i] != 0x22 && json[i] != 0x5c,
    ensures
        nul_key_from(json, from, true, found) == nul_key_from(json, to, true, found),
    decreases to - from,
{
    if from < to {
        assert(json[from] != 0x22 && json[from] != 0x5c);
        lemma_plain_bytes(json, from + 1, to, found);
    }
}

/// A key with the escape for a NUL is found. A JSON text without escapes has none.
pub proof fn law_nul_keys_are_found(json: Seq<u8>, a: Seq<u8>, b: Seq<u8>, rest: Seq<u8>)
    requires
        forall|i: int| 0 <= i < a.len() ==> #[trigger] a[i] != 0x22 && a[i] != 0x5c,
        forall|i: int| 0 <= i < b.len() ==> #[trigger] b[i] != 0x22 && b[i] != 0x5c,
    ensures
        has_nul_key(
            seq![0x7bu8, 0x22] + a + seq![0x5cu8, 0x75, 0x30, 0x30, 0x30, 0x30] + b + seq![
                0x22u8,
                0x3a,
            ] + rest,
        ),
        (forall|i: int| 0 <= i < json.len() ==> #[trigger] json[i] != 0x5c) ==> !has_nul_key(json),
{
    let open = seq![0x7bu8, 0x22];
    let nul = seq![0x5cu8, 0x75, 0x30, 0x30, 0x30, 0x30];
    let close = seq![0x22u8, 0x3a];
    let s = open + a + nul + b + close + rest;
    let m = 2 + a.len();
    let n = m + 6;
    let e = n + b.len();
    assert(s[0] == 0x7b && s[1] == 0x22);
    assert(nul_key_from(s, 0, false, false) == nul_key_from(s, 1, false, false));
    assert(nul_key_from(s, 1, false, false) == nul_key_from(s, 2, true, false));
    assert forall|i: int| 2 <= i < m implies #[trigger] s[i] != 0x22 && s[i] != 0x5c by {
        assert(s[i] == a[i - 2]);
    }
    lemma_plain_bytes(s, 2, m as int, false);
    assert forall|k: int| 0 <= k < 6 implies #[trigger] s[m + k] == nul[k] by {}
    assert(s[m as int + 0] == nul[0] && s[m as int + 1] == nul[1] && s[m as int + 2] == nul[2]
        && s[m as int + 3] == nul[3] && s[m as int + 4] == nul[4] && s[m as int + 5] == nul[5]);
    assert(is_nul_escape(s, m as int));
    assert(nul_key_from(s, m as int, true, false) == nul_key_from(s, m as int + 2, true, true));
    assert forall|i: int| m + 2 <= i < e implies #[trigger] s[i] != 0x22 && s[i] != 0x5c by {
        if i < n {
            assert(s[i] == nul[i - m]);
        } else {
            assert(s[i] == b[i - n]);
        }
    }
    lemma_plain_bytes(s, m as int + 2, e as int, true);
    assert(s[e as int] == close[0]);
    assert(s[e as int + 1] == close[1]);
    assert(nul_key_from(s, e as int, true, true));
    if forall|i: int| 0 <= i < json.len() ==> #[trigger] json[i] != 0x5c {
        lemma_no_escape(json, 0, false);
    }
}

proof fn lemma_no_escape(json: Seq<u8>, at: int, inside: bool)
    requires
        0 <= at,
        forall|i: int| 0 <= i < json.len() ==> #[trigger] json[i] != 0x5c,
    ensures
        !nul_key_from(json, at, inside, false),
    decreases json.len() + 1 - at,
{
    if at < json.len() {
        assert(json[at] != 0x5c);
        lemma_no_escape(json, at + 1, !inside);
        lemma_no_escape(json, at + 1, inside);
        lemma_no_escape(json, at + 1, json[at] == QUOTE);
    }
}

} // verus!
