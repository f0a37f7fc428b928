//! Unix paths as text: components, names, extensions, and lexical normalization.
use crate::text::{self, ends_with, join, rfind, same, split};
use vstd::prelude::*;

verus! {

/// The path starts at the root.
pub open spec fn is_absolute(path: Seq<char>) -> bool {
    path.len() > 0 && path[0] == '/'
}

/// What stands between the slashes of a path.
pub open spec fn parts(path: Seq<char>) -> Seq<Seq<char>> {
    text::pieces(path, "/"@)
}

/// A part that names nothing: an empty one, or the current directory.
pub open spec fn is_idle(part: Seq<char>) -> bool {
    part.len() == 0 || part == "."@
}

/// The parts that name something, in order.
pub open spec fn components(parts: Seq<Seq<char>>) -> Seq<Seq<char>>
    decreases parts.len(),
{
    if parts.len() == 0 {
        parts
    } else if is_idle(parts.last()) {
        components(parts.drop_last())
    } else {
        components(parts.drop_last()).push(parts.last())
    }
}

/// The last of `parts` that names something, unless it is the parent directory.
pub open spec fn last_name(parts: Seq<Seq<char>>) -> Option<Seq<char>> {
    let named = components(parts);
    if named.len() > 0 && named.last() != ".."@ {
        Some(named.last())
    } else {
        None
    }
}

/// The final name of a path.
pub open spec fn name_of(path: Seq<char>) -> Option<Seq<char>> {
    last_name(parts(path))
}

/// A file name without its extension.
pub open spec fn stem_of(name: Seq<char>) -> Seq<char> {
    if text::last_index(name, '.') > 0 {
        name.take(text::last_index(name, '.'))
    } else {
        name
    }
}

/// The extension of a file name: what stands behind its last dot, unless that dot comes first.
pub open spec fn suffix_of(name: Seq<char>) -> Option<Seq<char>> {
    if text::last_index(name, '.') > 0 {
        Some(name.skip(text::last_index(name, '.') + 1))
    } else {
        None
    }
}

/// The extension of a path.
pub open spec fn extension_of(path: Seq<char>) -> Option<Seq<char>> {
    match name_of(path) {
        Some(name) => suffix_of(name),
        None => None,
    }
}

/// The extension that a path has once its extension is taken off.
pub open spec fn inner_extension_of(path: Seq<char>) -> Option<Seq<char>> {
    let named = components(parts(path));
    match name_of(path) {
        Some(name) => match last_name(named.drop_last().push(stem_of(name))) {
            Some(inner) => suffix_of(inner),
            None => None,
        },
        None => None,
    }
}

/// A path without trailing slashes and trailing current-directory parts.
pub open spec fn tidied(path: Seq<char>) -> Seq<char>
    decreases path.len(),
{
    if path.len() > 0 && (path.last() == '/' || text::ends(path, "/."@)) {
        tidied(path.drop_last())
    } else {
        path
    }
}

/// The directory that holds what a path names.
pub open spec fn parent_of(path: Seq<char>) -> Option<Seq<char>> {
    let tidy = tidied(path);
    let head = tidy.take(tidy.len() - parts(tidy).last().len());
    if tidy.len() == 0 {
        None
    } else if head.len() > 0 && tidied(head).len() == 0 {
        Some("/"@)
    } else {
        Some(tidied(head))
    }
}

/// `path` seen from the directory `base`.
pub open spec fn path_in(base: Seq<char>, path: Seq<char>) -> Seq<char> {
    if is_absolute(path) || base.len() == 0 {
        path
    } else if base.last() == '/' {
        base + path
    } else {
        base + "/"@ + path
    }
}

/// The names reached after one more step.
pub open spec fn step(names: Seq<Seq<char>>, part: Seq<char>) -> Seq<Seq<char>> {
    if is_idle(part) {
        names
    } else if part == ".."@ {
        if names.len() > 0 {
            names.drop_last()
        } else {
            names
        }
    } else {
        names.push(part)
    }
}

/// The names reached by walking along `parts` from nowhere.
pub open spec fn walked(parts: Seq<Seq<char>>) -> Seq<Seq<char>>
    decreases parts.len(),
{
    if parts.len() == 0 {
        parts
    } else {
        step(walked(parts.drop_last()), parts.last())
    }
}

/// A path with nothing idle and no parent directory left in it.
pub open spec fn normal(path: Seq<char>) -> Seq<char> {
    (if is_absolute(path) {
        "/"@
    } else {
        Seq::empty()
    }) + text::joined(walked(parts(path)), "/"@)
}

/// `path` made absolute: in `base` if there is one, which itself stands in the current directory.
pub open spec fn located(
    base: Option<Seq<char>>,
    path: Seq<char>,
    current_dir: Seq<char>,
) -> Seq<char> {
    if is_absolute(path) {
        path
    } else {
        match base {
            Some(dir) => path_in(path_in(current_dir, dir), path),
            None => path_in(current_dir, path),
        }
    }
}

/// Two paths name the same place without asking the file system.
pub open spec fn equal_paths(a: Seq<char>, b: Seq<char>) -> bool {
    &&& is_absolute(a) == is_absolute(b)
    &&& (parts(a)[0] == "."@) == (parts(b)[0] == "."@)
    &&& components(parts(a)) == components(parts(b))
}

/// Whether a path starts at the root.
pub fn absolute(path: &str) -> (r: bool)
    ensures
        r == is_absolute(path@),
{
    path.unicode_len() > 0 && path.get_char(0) == '/'
}

/// What stands between the slashes of a path.
fn slash_parts<'a>(path: &'a str) -> (r: Vec<&'a str>)
    ensures
        text::views(r@) == parts(path@),
        r@.len() > 0,
{
    proof {
        reveal_strlit("/");
    }
    let r = split(path, "/");
    assert(text::views(r@).len() == r@.len());
    r
}

/// Whether a part names nothing.
fn idle(part: &str) -> (r: bool)
    ensures
        r == is_idle(part@),
{
    part.is_empty() || same(part, ".")
}

/// The parts that name something.
fn named_parts<'a>(all: &Vec<&'a str>) -> (r: Vec<&'a str>)
    ensures
        text::views(r@) == components(text::views(all@)),
{
    let mut r: Vec<&'a str> = Vec::new();
    let mut i: usize = 0;
    assert(text::views(r@) =~= text::views(all@).take(0));
    while i < all.len()
        invariant
            i <= all@.len(),
            text::views(r@) == components(text::views(all@).take(i as int)),
        decreases all@.len() - i,
    {
        let ghost before = text::views(r@);
        proof {
            let now = text::views(all@).take(i + 1);
            assert(now.drop_last() =~= text::views(all@).take(i as int));
            assert(now.last() == all@[i as int]@);
        }
        if !idle(all[i]) {
            r.push(all[i]);
            assert(text::views(r@) =~= before.push(all@[i as int]@));
        }
        i += 1;
    }
    assert(text::views(all@).take(all@.len() as int) =~= text::views(all@));
    r
}

/// The last of `all` that names something, unless it is the parent directory.
fn final_name<'a>(all: &Vec<&'a str>) -> (r: Option<&'a str>)
    ensures
        match r {
            Some(name) => last_name(text::views(all@)) == Some(name@),
            None => last_name(text::views(all@)) is None,
        },
{
    let named = named_parts(all);
    assert(text::views(named@).len() == named@.len());
    if named.len() > 0 {
        let name = named[named.len() - 1];
        assert(text::views(named@).last() == name@);
        if !same(name, "..") {
            return Some(name);
        }
    }
    None
}

/// The final name of a path.
pub fn file_name<'a>(path: &'a str) -> (r: Option<&'a str>)
    ensures
        match r {
            Some(name) => name_of(path@) == Some(name@),
            None => name_of(path@) is None,
        },
{
    final_name(&slash_parts(path))
}

/// A file name without its extension.
pub fn file_stem<'a>(name: &'a str) -> (r: &'a str)
    ensures
        r@ == stem_of(name@),
{
    let end: usize = name.unicode_len();
    match rfind(name, '.') {
        Some(i) if i > 0 => name.substring_char(0, i),
        _ => {
            let r = name.substring_char(0, end);
            assert(r@ =~= name@);
            r
        },
    }
}

/// The extension of a file name.
fn name_extension<'a>(name: &'a str) -> (r: Option<&'a str>)
    ensures
        match r {
            Some(e) => suffix_of(name@) == Some(e@),
            None => suffix_of(name@) is None,
        },
{
    let end: usize = name.unicode_len();
    match rfind(name, '.') {
        Some(i) if i > 0 => Some(name.substring_char(i + 1, end)),
        _ => None,
    }
}

/// The extension of a path.
pub fn extension<'a>(path: &'a str) -> (r: Option<&'a str>)
    ensures
        match r {
            Some(e) => extension_of(path@) == Some(e@),
            None => extension_of(path@) is None,
        },
{
    match file_name(path) {
        Some(name) => name_extension(name),
        None => None,
    }
}

/// The extension that a path has once its extension is taken off.
pub fn inner_extension<'a>(path: &'a str) -> (r: Option<&'a str>)
    ensures
        match r {
            Some(e) => inner_extension_of(path@) == Some(e@),
            None => inner_extension_of(path@) is None,
        },
{
    let mut named = named_parts(&slash_parts(path));
    let ghost before = named@;
    assert(text::views(before).len() == before.len());
    match file_name(path) {
        Some(name) => {
            let _ = named.pop();
            named.push(file_stem(name));
            assert(text::views(named@) =~= text::views(before).drop_last().push(stem_of(name@)));
            match final_name(&named) {
                Some(inner) => name_extension(inner),
                None => None,
            }
        },
        None => None,
    }
}

/// A path without trailing slashes and trailing current-directory parts.
fn tidy<'a>(path: &'a str) -> (r: &'a str)
    ensures
        r@ == tidied(path@),
{
    let mut n: usize = path.unicode_len();
    assert(path@.take(n as int) =~= path@);
    while n > 0
        invariant
            n <= path@.len(),
            tidied(path@) == tidied(path@.take(n as int)),
        decreases n,
    {
        let head = path.substring_char(0, n);
        assert(head@ =~= path@.take(n as int));
        assert(head@.drop_last() =~= path@.take(n - 1));
        if head.get_char(n - 1) != '/' && !ends_with(head, "/.") {
            return head;
        }
        n -= 1;
    }
    path.substring_char(0, 0)
}

/// The directory that holds what a path names.
pub fn parent<'a>(path: &'a str) -> (r: Option<&'a str>)
    ensures
        match r {
            Some(dir) => parent_of(path@) == Some(dir@),
            None => parent_of(path@) is None,
        },
{
    let whole = tidy(path);
    let n: usize = whole.unicode_len();
    if n == 0 {
        return None;
    }
    let all = slash_parts(whole);
    let last = all[all.len() - 1];
    proof {
        assert(text::views(all@).last() == last@);
        reveal_strlit("/");
        text::lemma_last_piece(whole@, "/"@);
    }
    let head = whole.substring_char(0, n - last.unicode_len());
    let dir = tidy(head);
    if head.unicode_len() > 0 && dir.unicode_len() == 0 {
        Some("/")
    } else {
        Some(dir)
    }
}

/// `path` seen from the directory `base`.
pub fn join_path(base: &str, path: &str) -> (r: String)
    ensures
        r@ == path_in(base@, path@),
{
    let n: usize = base.unicode_len();
    if absolute(path) || n == 0 {
        path.to_owned()
    } else if base.get_char(n - 1) == '/' {
        base.to_owned().concat(path)
    } else {
        base.to_owned().concat("/").concat(path)
    }
}

/// Whether two paths name the same place without asking the file system.
pub fn same_path(a: &str, b: &str) -> (r: bool)
    ensures
        r == equal_paths(a@, b@),
{
    let pa = slash_parts(a);
    let pb = slash_parts(b);
    assert(text::views(pa@)[0] == pa@[0]@ && text::views(pb@)[0] == pb@[0]@);
    if absolute(a) != absolute(b) || same(pa[0], ".") != same(pb[0], ".") {
        return false;
    }
    let na = named_parts(&pa);
    let nb = named_parts(&pb);
    assert(text::views(na@).len() == na@.len() && text::views(nb@).len() == nb@.len());
    if na.len() != nb.len() {
        return false;
    }
    let mut i: usize = 0;
    while i < na.len()
        invariant
            i <= na.len() == nb.len(),
            text::views(na@) == components(parts(a@)),
            text::views(nb@) == components(parts(b@)),
            forall|j: int| 0 <= j < i ==> (#[trigger] na@[j])@ == nb@[j]@,
        decreases na.len() - i,
    {
        if !same(na[i], nb[i]) {
            assert(text::views(na@)[i as int] != text::views(nb@)[i as int]);
            return false;
        }
        i += 1;
    }
    assert(text::views(na@) =~= text::views(nb@));
    true
}

/// A path with nothing idle and no parent directory left in it.
fn normalized(path: &str) -> (r: String)
    ensures
        r@ == normal(path@),
{
    let all = slash_parts(path);
    let mut names: Vec<&str> = Vec::new();
    let mut i: usize = 0;
    assert(text::views(names@) =~= text::views(all@).take(0));
    while i < all.len()
        invariant
            i <= all@.len(),
            text::views(names@) == walked(text::views(all@).take(i as int)),
        decreases all@.len() - i,
    {
        let part = all[i];
        let ghost before = text::views(names@);
        assert(before.len() == names@.len());
        proof {
            let now = text::views(all@).take(i + 1);
            assert(now.drop_last() =~= text::views(all@).take(i as int));
            assert(now.last() == part@);
        }
        if idle(part) {
        } else if same(part, "..") {
            let _ = names.pop();
            assert(text::views(names@) =~= (if before.len() > 0 {
                before.drop_last()
            } else {
                before
            }));
        } else {
            names.push(part);
            assert(text::views(names@) =~= before.push(part@));
        }
        i += 1;
    }
    assert(text::views(all@).take(all@.len() as int) =~= text::views(all@));
    let tail = join(&names, "/");
    if absolute(path) {
        "/".to_owned().concat(tail.as_str())
    } else {
        assert(Seq::<char>::empty() + tail@ =~= tail@);
        tail
    }
}

/// Normalizes a path that stands in the current directory.
pub fn normalize_path(path: &str, current_dir: &str) -> (r: String)
    ensures
        r@ == normal(located(None, path@, current_dir@)),
{
    normalize_path_with_base(None, path, current_dir)
}

/// Normalizes a path that stands in `base`, or in the current directory without one.
pub fn normalize_path_with_base(base: Option<&str>, path: &str, current_dir: &str) -> (r: String)
    ensures
        r@ == normal(
            located(text::str_view(base), path@, current_dir@),
        ),
{
    let whole = if absolute(path) {
        path.to_owned()
    } else {
        match base {
            Some(dir) => join_path(join_path(current_dir, dir).as_str(), path),
            None => join_path(current_dir, path),
        }
    };
    normalized(whole.as_str())
}

/// A name that a walk keeps: not idle, not the parent directory, and without a slash.
pub open spec fn is_plain(name: Seq<char>) -> bool {
    &&& !is_idle(name)
    &&& name != ".."@
    &&& !name.contains('/')
}

proof fn lemma_walked_plain(parts: Seq<Seq<char>>)
    requires
        forall|k: int| 0 <= k < parts.len() ==> !(#[trigger] parts[k]).contains('/'),
    ensures
        forall|k: int| 0 <= k < walked(parts).len() ==> is_plain(#[trigger] walked(parts)[k]),
    decreases parts.len(),
{
    if parts.len() > 0 {
        let init = parts.drop_last();
        assert forall|k: int| 0 <= k < init.len() implies !(#[trigger] init[k]).contains('/') by {
            assert(init[k] == parts[k]);
        }
        lemma_walked_plain(init);
        let before = walked(init);
        assert(!parts[parts.len() - 1].contains('/'));
        assert forall|k: int| 0 <= k < walked(parts).len() implies is_plain(
            #[trigger] walked(parts)[k],
        ) by {
            if k < before.len() {
                assert(is_plain(before[k]));
            }
        }
    }
}

proof fn lemma_walk_on(before: Seq<Seq<char>>, names: Seq<Seq<char>>)
    requires
        forall|k: int| 0 <= k < names.len() ==> is_plain(#[trigger] names[k]),
    ensures
        walked(before + names) == walked(before) + names,
    decreases names.len(),
{
    if names.len() == 0 {
        assert(before + names =~= before);
        assert(walked(before) + names =~= walked(before));
    } else {
        let init = names.drop_last();
        assert forall|k: int| 0 <= k < init.len() implies is_plain(#[trigger] init[k]) by {
            assert(init[k] == names[k]);
        }
        lemma_walk_on(before, init);
        assert((before + names).drop_last() =~= before + init);
        assert(is_plain(names[names.len() - 1]));
        assert((walked(before) + init).push(names.last()) =~= walked(before) + names);
    }
}

proof fn lemma_joined_start(names: Seq<Seq<char>>, sep: Seq<char>)
    requires
        names.len() > 0,
        names[0].len() > 0,
    ensures
        text::joined(names, sep).len() > 0,
        text::joined(names, sep)[0] == names[0][0],
    decreases names.len(),
{
    if names.len() > 1 {
        lemma_joined_start(names.drop_last(), sep);
    }
}

/// The parts of a normal path: what a walk along the path reached, behind the root.
proof fn lemma_normal_parts(path: Seq<char>)
    ensures
        is_absolute(normal(path)) == is_absolute(path),
        walked(parts(normal(path))) == walked(parts(path)),
        forall|k: int|
            0 <= k < walked(parts(path)).len() ==> is_plain(#[trigger] walked(parts(path))[k]),
{
    reveal_strlit("/");
    let names = walked(parts(path));
    let tail = text::joined(names, "/"@);
    text::lemma_pieces_free(path, "/"@);
    assert("/"@[0] == '/');
    lemma_walked_plain(parts(path));
    let nothing = Seq::<char>::empty();
    text::lemma_find_bounds(nothing, "/"@);
    assert(parts(nothing) =~= seq![nothing]);
    assert(seq![nothing].drop_last() =~= Seq::empty());
    assert(walked(Seq::<Seq<char>>::empty()) =~= Seq::empty());
    assert(walked(seq![nothing]) =~= Seq::empty());
    if names.len() > 0 {
        assert(is_plain(names[0]));
        assert forall|k: int| 0 <= k < names.len() implies !(#[trigger] names[k]).contains('/') by {
            assert(is_plain(names[k]));
        }
        text::lemma_pieces_joined(names, "/"@);
        lemma_joined_start(names, "/"@);
        assert(names[0].contains(names[0][0]));
    }
    if is_absolute(path) {
        assert(normal(path) =~= nothing + "/"@ + tail);
        text::lemma_pieces_concat(nothing, "/"@, tail);
        if names.len() > 0 {
            lemma_walk_on(seq![nothing], names);
        } else {
            let two = seq![nothing] + seq![nothing];
            assert(two.drop_last() =~= seq![nothing]);
            assert(walked(two) =~= names);
        }
    } else {
        assert(normal(path) =~= tail);
        if names.len() > 0 {
            lemma_walk_on(Seq::empty(), names);
            assert(Seq::<Seq<char>>::empty() + names =~= names);
        }
    }
}

/// Normalizing a second time changes nothing.
pub proof fn law_normal_is_stable(path: Seq<char>)
    ensures
        normal(normal(path)) == normal(path),
{
    lemma_normal_parts(path);
}

proof fn lemma_joined_end(names: Seq<Seq<char>>, sep: Seq<char>)
    requires
        names.len() > 0,
        names.last().len() > 0,
    ensures
        text::joined(names, sep).len() > 0,
        text::joined(names, sep).last() == names.last().last(),
{
}

/// A normal path keeps the root of the path it was made of, and between its slashes stand ordinary
/// names: no current or parent directory, and nothing empty. Only the root itself ends in a slash.
pub proof fn law_normal_has_plain_parts(path: Seq<char>)
    ensures
        is_absolute(normal(path)) == is_absolute(path),
        is_absolute(path) && normal(path) != "/"@ ==> parts(normal(path)).len() > 1 && parts(
            normal(path),
        )[0].len() == 0,
        is_absolute(path) && normal(path) != "/"@ ==> forall|k: int|
            1 <= k < parts(normal(path)).len() ==> is_plain(#[trigger] parts(normal(path))[k]),
        !is_absolute(path) && normal(path).len() > 0 ==> forall|k: int|
            0 <= k < parts(normal(path)).len() ==> is_plain(#[trigger] parts(normal(path))[k]),
        normal(path).len() > 0 && normal(path) != "/"@ ==> normal(path).last() != '/',
{
    lemma_normal_parts(path);
    reveal_strlit("/");
    assert("/"@[0] == '/');
    let names = walked(parts(path));
    let nothing = Seq::<char>::empty();
    text::lemma_find_bounds(nothing, "/"@);
    assert(parts(nothing) =~= seq![nothing]);
    let tail = text::joined(names, "/"@);
    if names.len() > 0 {
        assert forall|j: int| 0 <= j < names.len() implies !(#[trigger] names[j]).contains('/') by {
            assert(is_plain(names[j]));
        }
        text::lemma_pieces_joined(names, "/"@);
        let last = names[names.len() - 1];
        assert(is_plain(last));
        lemma_joined_end(names, "/"@);
        assert(last.contains(last.last()));
    } else {
        assert(tail =~= nothing);
    }
    if is_absolute(path) {
        assert(normal(path) =~= nothing + "/"@ + tail);
        text::lemma_pieces_concat(nothing, "/"@, tail);
        if names.len() == 0 {
            assert(normal(path) =~= "/"@);
        }
    } else {
        assert(normal(path) =~= tail);
    }
}

/// With an absolute current directory, what is normalized ends up absolute.
pub proof fn law_located_is_absolute(
    base: Option<Seq<char>>,
    path: Seq<char>,
    current_dir: Seq<char>,
)
    requires
        is_absolute(current_dir),
    ensures
        is_absolute(normal(located(base, path, current_dir))),
{
    lemma_normal_parts(located(base, path, current_dir));
}

/// Going up from a name leads back to where the name was entered.
pub proof fn law_parent_undoes_name(path: Seq<char>, name: Seq<char>)
    requires
        path.len() > 0,
        is_plain(name),
    ensures
        normal(path + "/"@ + name + "/"@ + ".."@) == normal(path),
{
    reveal_strlit("/");
    reveal_strlit("..");
    reveal_strlit(".");
    assert("/"@[0] == '/');
    let down = path + "/"@ + name;
    text::lemma_pieces_concat(path, "/"@, name);
    text::lemma_pieces_concat(down, "/"@, ".."@);
    text::lemma_find_bounds(name, "/"@);
    if let Some(i) = text::find(name, "/"@) {
        assert(name[i] == name.subrange(i, i + 1)[0]);
    }
    text::lemma_find_bounds(".."@, "/"@);
    if let Some(i) = text::find(".."@, "/"@) {
        assert(".."@[i] == ".."@.subrange(i, i + 1)[0]);
    }
    assert(text::pieces(name, "/"@) =~= seq![name]);
    assert(text::pieces(".."@, "/"@) =~= seq![".."@]);
    assert(!is_idle(".."@));
    let all = parts(path) + seq![name] + seq![".."@];
    assert(parts(down + "/"@ + ".."@) =~= all);
    assert(all.drop_last() =~= parts(path) + seq![name]);
    assert((parts(path) + seq![name]).drop_last() =~= parts(path));
    assert(walked(parts(path) + seq![name]) == walked(parts(path)).push(name));
    assert(walked(parts(path)).push(name).drop_last() =~= walked(parts(path)));
    assert(all.last() == ".."@);
    assert(walked(all) == walked(parts(path)));
    assert(is_absolute(down + "/"@ + ".."@) == is_absolute(path));
}

/// A text without slashes is its only part.
proof fn lemma_only_part(name: Seq<char>)
    requires
        !name.contains('/'),
    ensures
        parts(name) == seq![name],
{
    reveal_strlit("/");
    assert("/"@[0] == '/');
    text::law_holds_characters(name, "/"@);
    assert(parts(name) =~= seq![name]);
}

/// The words for the current and the parent directory.
proof fn lemma_dots()
    ensures
        "."@.len() == 1,
        "."@[0] == '.',
        ".."@.len() == 2,
        ".."@[0] == '.',
        ".."@[1] == '.',
        "/"@.len() == 1,
        "/"@[0] == '/',
        !"."@.contains('/'),
        !".."@.contains('/'),
        parts("."@) == seq!["."@],
        parts(".."@) == seq![".."@],
        parts(Seq::<char>::empty()) == seq![Seq::<char>::empty()],
{
    reveal_strlit(".");
    reveal_strlit("..");
    reveal_strlit("/");
    lemma_only_part("."@);
    lemma_only_part(".."@);
    lemma_only_part(Seq::<char>::empty());
}

/// A path is absolute exactly if it begins with a slash.
pub proof fn law_absolute_begins_with_slash(path: Seq<char>, rest: Seq<char>)
    ensures
        is_absolute("/"@ + rest),
        is_absolute(path) <==> exists|tail: Seq<char>| path == #[trigger] ("/"@ + tail),
{
    lemma_dots();
    if is_absolute(path) {
        assert(path =~= "/"@ + path.skip(1));
    }
}

/// The parts of a path, joined by slashes, are the path, and none of them holds a slash.
pub proof fn law_parts_join_again(path: Seq<char>, more: Seq<char>)
    ensures
        text::joined(parts(path), "/"@) == path,
        forall|k: int| 0 <= k < parts(path).len() ==> !(#[trigger] parts(path)[k]).contains('/'),
        parts(path + "/"@ + more) == parts(path) + parts(more),
{
    lemma_dots();
    text::law_pieces_join_again(path, "/"@);
    text::lemma_pieces_free(path, "/"@);
    text::lemma_pieces_concat(path, "/"@, more);
}

/// The parts that name something are told one by one: an empty part and the current directory name
/// nothing.
pub proof fn law_components_go_by_parts(a: Seq<Seq<char>>, b: Seq<Seq<char>>, part: Seq<char>)
    ensures
        components(a + b) == components(a) + components(b),
        components(seq![part]) == (if part.len() == 0 || part == "."@ {
            Seq::empty()
        } else {
            seq![part]
        }),
    decreases b.len(),
{
    let none = Seq::<Seq<char>>::empty();
    assert(seq![part].drop_last() =~= none);
    assert(components(none) =~= none);
    assert(none.push(part) =~= seq![part]);
    assert(seq![part].last() == part);
    if b.len() == 0 {
        assert(a + b =~= a);
        assert(components(b) =~= none);
        assert(components(a) + components(b) =~= components(a));
    } else {
        law_components_go_by_parts(a, b.drop_last(), part);
        assert((a + b).drop_last() =~= a + b.drop_last());
        assert((a + b).last() == b.last());
        assert((components(a) + components(b.drop_last())).push(b.last()) =~= components(a)
            + components(b.drop_last()).push(b.last()));
    }
}

/// The final name of a path stands behind its last slash. Slashes and current directories behind it
/// do not count; a path that ends in the parent directory, or is empty, has none.
pub proof fn law_name_stands_last(dir: Seq<char>, name: Seq<char>)
    requires
        name.len() > 0,
        name != "."@,
        name != ".."@,
        !name.contains('/'),
    ensures
        name_of(name) == Some(name),
        name_of(dir + "/"@ + name) == Some(name),
        name_of(dir + "/"@) == name_of(dir),
        name_of(dir + "/"@ + "."@) == name_of(dir),
        name_of(dir + "/"@ + ".."@) is None,
        name_of(Seq::empty()) is None,
{
    lemma_dots();
    lemma_only_part(name);
    let none = Seq::<Seq<char>>::empty();
    let nothing = Seq::<char>::empty();
    law_parts_join_again(dir, name);
    law_parts_join_again(dir, nothing);
    law_parts_join_again(dir, "."@);
    law_parts_join_again(dir, ".."@);
    law_components_go_by_parts(parts(dir), seq![name], name);
    law_components_go_by_parts(parts(dir), seq![nothing], nothing);
    law_components_go_by_parts(parts(dir), seq!["."@], "."@);
    law_components_go_by_parts(parts(dir), seq![".."@], ".."@);
    assert(dir + "/"@ + nothing =~= dir + "/"@);
    let named = components(parts(dir));
    assert(named + none =~= named);
    assert((named + seq![name]).last() == name);
    assert((named + seq![".."@]).last() == ".."@);
    assert(seq![name].last() == name);
}

/// The extension of a name stands behind its last dot. A name without a dot, or with a dot only at
/// its start, has none and is its own stem.
pub proof fn law_extension_stands_behind_last_dot(stem: Seq<char>, ext: Seq<char>)
    requires
        !ext.contains('.'),
    ensures
        stem.len() > 0 ==> suffix_of(stem + "."@ + ext) == Some(ext),
        stem.len() > 0 ==> stem_of(stem + "."@ + ext) == stem,
        suffix_of("."@ + ext) is None,
        stem_of("."@ + ext) == "."@ + ext,
        suffix_of(ext) is None,
        stem_of(ext) == ext,
{
    lemma_dots();
    let name = stem + "."@ + ext;
    let n = stem.len() as int;
    assert(name[n] == '.');
    assert(name.contains('.'));
    assert forall|i: int| n < i < name.len() implies #[trigger] name[i] != '.' by {
        assert(name[i] == ext[i - n - 1]);
        assert(ext.contains(ext[i - n - 1]));
    }
    text::law_last_index_is_last(name, '.');
    assert(text::last_index(name, '.') == n);
    assert(name.skip(n + 1) =~= ext);
    assert(name.take(n) =~= stem);
    text::law_last_index_is_last(ext, '.');
    let hidden = "."@ + ext;
    assert(hidden[0] == '.');
    assert(hidden.contains('.'));
    assert forall|i: int| 0 < i < hidden.len() implies #[trigger] hidden[i] != '.' by {
        assert(hidden[i] == ext[i - 1]);
        assert(ext.contains(ext[i - 1]));
    }
    text::law_last_index_is_last(hidden, '.');
    assert(text::last_index(hidden, '.') == 0);
}

/// The extension of a path is that of its final name, whatever directory it stands in.
pub proof fn law_path_has_extension_of_its_name(dir: Seq<char>, stem: Seq<char>, ext: Seq<char>)
    requires
        stem.len() > 0,
        ext.len() > 0,
        !stem.contains('/'),
        !ext.contains('/'),
        !ext.contains('.'),
    ensures
        extension_of(stem + "."@ + ext) == Some(ext),
        extension_of(dir + "/"@ + (stem + "."@ + ext)) == Some(ext),
        extension_of(ext) is None,
        extension_of(dir + "/"@ + ext) is None,
{
    lemma_dots();
    let name = stem + "."@ + ext;
    lemma_dotted_name(stem, ext);
    law_name_stands_last(dir, name);
    assert(ext[0] != '.') by {
        assert(ext.contains(ext[0]));
    }
    law_name_stands_last(dir, ext);
    law_extension_stands_behind_last_dot(stem, ext);
}

/// A stem and an extension make a name.
proof fn lemma_dotted_name(stem: Seq<char>, ext: Seq<char>)
    requires
        stem.len() > 0,
        ext.len() > 0,
        !stem.contains('/'),
        !ext.contains('/'),
    ensures
        !(stem + "."@ + ext).contains('/'),
        (stem + "."@ + ext).len() > 2,
        stem + "."@ + ext != "."@,
        stem + "."@ + ext != ".."@,
{
    lemma_dots();
    let name = stem + "."@ + ext;
    let n = stem.len() as int;
    assert forall|i: int| 0 <= i < name.len() implies name[i] != '/' by {
        if i < n {
            assert(name[i] == stem[i]);
            assert(stem.contains(stem[i]));
        } else if i > n {
            assert(name[i] == ext[i - n - 1]);
            assert(ext.contains(ext[i - n - 1]));
        }
    }
}

/// The inner extension of a path is the one in front of its last extension. There is none where the
/// name has one extension at most.
pub proof fn law_inner_extension_comes_before_last(
    dir: Seq<char>,
    stem: Seq<char>,
    inner: Seq<char>,
    outer: Seq<char>,
)
    requires
        stem.len() > 0,
        inner.len() > 0,
        outer.len() > 0,
        !stem.contains('/'),
        !inner.contains('/'),
        !outer.contains('/'),
        !inner.contains('.'),
        !outer.contains('.'),
    ensures
        inner_extension_of(dir + "/"@ + (stem + "."@ + inner + "."@ + outer)) == Some(inner),
        inner_extension_of(stem + "."@ + inner + "."@ + outer) == Some(inner),
        inner_extension_of(dir + "/"@ + (inner + "."@ + outer)) is None,
        inner_extension_of(inner + "."@ + outer) is None,
{
    lemma_dots();
    let short = stem + "."@ + inner;
    lemma_dotted_name(stem, inner);
    lemma_dotted_name(short, outer);
    lemma_dotted_name(inner, outer);
    law_extension_stands_behind_last_dot(stem, inner);
    law_extension_stands_behind_last_dot(short, outer);
    law_extension_stands_behind_last_dot(inner, outer);
    assert(inner[0] != '.') by {
        assert(inner.contains(inner[0]));
    }
    lemma_inner(dir, short, outer);
    lemma_inner(dir, inner, outer);
}

/// What is looked for inside is the extension of the stem.
proof fn lemma_inner(dir: Seq<char>, stem: Seq<char>, outer: Seq<char>)
    requires
        stem.len() > 0,
        stem != "."@,
        stem != ".."@,
        outer.len() > 0,
        !stem.contains('/'),
        !outer.contains('/'),
        !outer.contains('.'),
    ensures
        inner_extension_of(dir + "/"@ + (stem + "."@ + outer)) == suffix_of(stem),
        inner_extension_of(stem + "."@ + outer) == suffix_of(stem),
{
    lemma_dots();
    let name = stem + "."@ + outer;
    lemma_dotted_name(stem, outer);
    law_extension_stands_behind_last_dot(stem, outer);
    law_name_stands_last(dir, name);
    lemma_only_part(name);
    law_parts_join_again(dir, name);
    law_components_go_by_parts(parts(dir), seq![name], name);
    let named = components(parts(dir + "/"@ + name));
    assert(named =~= components(parts(dir)).push(name));
    lemma_last_is_name(named.drop_last(), stem);
    let alone = components(parts(name));
    assert(alone =~= seq![name]);
    lemma_last_is_name(alone.drop_last(), stem);
}

/// A name behind any parts is the last one.
proof fn lemma_last_is_name(before: Seq<Seq<char>>, name: Seq<char>)
    requires
        name.len() > 0,
        name != "."@,
        name != ".."@,
    ensures
        last_name(before.push(name)) == Some(name),
{
    assert(before.push(name).drop_last() =~= before);
    assert(components(before.push(name)).last() == name);
}

/// The parent of a path is what stands before its final name. That of a bare name is empty, that of
/// a name in the root is the root, and the root and the empty path have none. A slash or a current
/// directory at the end does not count.
pub proof fn law_parent_stands_before_name(dir: Seq<char>, name: Seq<char>, path: Seq<char>)
    requires
        name.len() > 0,
        name != "."@,
        !name.contains('/'),
        dir.len() > 0,
        dir.last() != '/',
        !text::ends(dir, "/."@),
    ensures
        parent_of(dir + "/"@ + name) == Some(dir),
        parent_of("/"@ + name) == Some("/"@),
        parent_of(name) == Some(Seq::<char>::empty()),
        parent_of(Seq::empty()) is None,
        parent_of("/"@) is None,
        parent_of(path + "/"@) == parent_of(path),
        parent_of(path + "/"@ + "."@) == parent_of(path),
{
    lemma_dots();
    reveal_strlit("/.");
    lemma_only_part(name);
    let nothing = Seq::<char>::empty();
    let whole = dir + "/"@ + name;
    law_parts_join_again(dir, name);
    lemma_tidy_name(dir + "/"@, name);
    lemma_tidy_name("/"@, name);
    lemma_tidy_name(nothing, name);
    assert(nothing + name =~= name);
    assert(parts(whole).last() == name);
    assert(whole.take(whole.len() - name.len()) =~= dir + "/"@);
    assert((dir + "/"@).drop_last() =~= dir);
    assert(tidied(dir) == dir);
    assert((dir + "/"@).last() == '/');
    assert(tidied(dir + "/"@) == dir);
    let top = "/"@ + name;
    assert(top =~= nothing + "/"@ + name);
    law_parts_join_again(nothing, name);
    assert(parts(top).last() == name);
    assert(top.take(top.len() - name.len()) =~= "/"@);
    assert("/"@.drop_last() =~= nothing);
    assert(tidied("/"@) =~= nothing);
    assert(parts(name).last() == name);
    assert(name.take(0) =~= nothing);
    assert(tidied(nothing) == nothing);
    assert((path + "/"@).drop_last() =~= path);
    assert((path + "/"@).last() == '/');
    assert(tidied(path + "/"@) == tidied(path));
    let dotted = path + "/"@ + "."@;
    assert(dotted.skip(dotted.len() - 2) =~= "/."@);
    assert(dotted.drop_last() =~= path + "/"@);
    assert(tidied(dotted) == tidied(path));
}

/// A path that ends in a name is tidy.
proof fn lemma_tidy_name(head: Seq<char>, name: Seq<char>)
    requires
        name.len() > 0,
        name != "."@,
        !name.contains('/'),
    ensures
        tidied(head + name) == head + name,
{
    lemma_dots();
    reveal_strlit("/.");
    let path = head + name;
    let n = path.len();
    assert(path.last() == name[name.len() - 1]);
    assert(name.contains(name[name.len() - 1]));
    if text::ends(path, "/."@) {
        let tail = path.skip(n - 2);
        assert(tail[0] == '/' && tail[1] == '.');
        assert(path[n - 2] == '/' && path[n - 1] == '.');
        if name.len() > 1 {
            assert(path[n - 2] == name[name.len() - 2]);
            assert(name.contains(name[name.len() - 2]));
        } else {
            assert(name =~= "."@);
        }
    }
}

/// A relative path is put behind the directory that it is seen from, with one slash between them
/// where there is none. An absolute path stays, and so does one that is seen from nowhere.
pub proof fn law_path_is_put_behind_directory(dir: Seq<char>, path: Seq<char>)
    ensures
        path.len() > 0 && path[0] == '/' ==> path_in(dir, path) == path,
        dir.len() == 0 ==> path_in(dir, path) == path,
        (path.len() == 0 || path[0] != '/') && dir.len() > 0 && dir[dir.len() - 1] != '/'
            ==> path_in(dir, path) == dir + "/"@ + path,
        (path.len() == 0 || path[0] != '/') && dir.len() > 0 && dir[dir.len() - 1] == '/'
            ==> path_in(dir, path) == dir + path,
{
}

/// Where a walk along some parts leads does not depend on how their start was reached.
proof fn lemma_walk_further(a: Seq<Seq<char>>, b: Seq<Seq<char>>, rest: Seq<Seq<char>>)
    requires
        walked(a) == walked(b),
    ensures
        walked(a + rest) == walked(b + rest),
    decreases rest.len(),
{
    if rest.len() == 0 {
        assert(a + rest =~= a);
        assert(b + rest =~= b);
    } else {
        lemma_walk_further(a, b, rest.drop_last());
        assert((a + rest).drop_last() =~= a + rest.drop_last());
        assert((b + rest).drop_last() =~= b + rest.drop_last());
        assert((a + rest).last() == (b + rest).last());
    }
}

/// A path of ordinary names is normal already.
pub proof fn law_plain_paths_stay(names: Seq<Seq<char>>)
    requires
        names.len() > 0,
        forall|k: int|
            0 <= k < names.len() ==> (#[trigger] names[k]).len() > 0 && names[k] != "."@ && names[k]
                != ".."@ && !names[k].contains('/'),
    ensures
        normal(text::joined(names, "/"@)) == text::joined(names, "/"@),
        normal("/"@ + text::joined(names, "/"@)) == "/"@ + text::joined(names, "/"@),
        normal("/"@) == "/"@,
{
    lemma_dots();
    assert forall|k: int| 0 <= k < names.len() implies is_plain(#[trigger] names[k]) by {}
    assert forall|k: int| 0 <= k < names.len() implies !(#[trigger] names[k]).contains(
        "/"@[0],
    ) by {}
    let tail = text::joined(names, "/"@);
    let nothing = Seq::<char>::empty();
    let none = Seq::<Seq<char>>::empty();
    text::lemma_pieces_joined(names, "/"@);
    lemma_joined_start(names, "/"@);
    assert(names[0].contains(names[0][0]));
    lemma_walk_on(none, names);
    assert(none + names =~= names);
    assert(walked(none) + names =~= names);
    assert(nothing + tail =~= tail);
    law_parts_join_again(nothing, tail);
    assert(nothing + "/"@ + tail =~= "/"@ + tail);
    assert(seq![nothing].drop_last() =~= none);
    assert(walked(seq![nothing]) =~= none);
    lemma_walk_on(seq![nothing], names);
    law_parts_join_again(nothing, nothing);
    assert(nothing + "/"@ + nothing =~= "/"@);
    let two = seq![nothing] + seq![nothing];
    assert(two.drop_last() =~= seq![nothing]);
    assert(walked(two) =~= none);
    assert(text::joined(none, "/"@) =~= nothing);
    assert("/"@ + nothing =~= "/"@);
}

/// A part that names nothing can be left out of a path, and so can a slash at its end.
pub proof fn law_idle_parts_vanish(a: Seq<char>, b: Seq<char>)
    ensures
        normal(a + "/"@ + "."@ + "/"@ + b) == normal(a + "/"@ + b),
        normal(a + "/"@ + "/"@ + b) == normal(a + "/"@ + b),
        a.len() > 0 ==> normal(a + "/"@) == normal(a),
        a.len() > 0 ==> normal(a + "/"@ + "."@) == normal(a),
{
    lemma_dots();
    let nothing = Seq::<char>::empty();
    law_parts_join_again(a, "."@);
    law_parts_join_again(a + "/"@ + "."@, b);
    law_parts_join_again(a, b);
    law_parts_join_again(a, nothing);
    assert(a + "/"@ + nothing =~= a + "/"@);
    law_parts_join_again(a + "/"@, b);
    assert((parts(a) + seq!["."@]).drop_last() =~= parts(a));
    assert((parts(a) + seq![nothing]).drop_last() =~= parts(a));
    assert(walked(parts(a) + seq!["."@]) == walked(parts(a)));
    assert(walked(parts(a) + seq![nothing]) == walked(parts(a)));
    lemma_walk_further(parts(a) + seq!["."@], parts(a), parts(b));
    lemma_walk_further(parts(a) + seq![nothing], parts(a), parts(b));
}

/// A name and the parent directory behind it cancel out anywhere in a path, and there is nothing
/// above the root.
pub proof fn law_parent_cancels_name(a: Seq<char>, name: Seq<char>, b: Seq<char>)
    requires
        name.len() > 0,
        name != "."@,
        name != ".."@,
        !name.contains('/'),
    ensures
        normal(a + "/"@ + name + "/"@ + ".."@ + "/"@ + b) == normal(a + "/"@ + b),
        normal("/"@ + ".."@ + "/"@ + b) == normal("/"@ + b),
        normal("/"@ + ".."@) == "/"@,
{
    lemma_dots();
    lemma_only_part(name);
    let nothing = Seq::<char>::empty();
    let none = Seq::<Seq<char>>::empty();
    let down = a + "/"@ + name;
    let up = down + "/"@ + ".."@;
    law_parts_join_again(a, name);
    law_parts_join_again(down, ".."@);
    law_parts_join_again(up, b);
    law_parts_join_again(a, b);
    let there = parts(a) + seq![name];
    let back = there + seq![".."@];
    assert(there.drop_last() =~= parts(a));
    assert(back.drop_last() =~= there);
    assert(walked(there) == walked(parts(a)).push(name));
    assert(walked(parts(a)).push(name).drop_last() =~= walked(parts(a)));
    assert(back.last() == ".."@);
    assert(walked(back) == walked(parts(a)));
    lemma_walk_further(back, parts(a), parts(b));
    let top = "/"@ + ".."@;
    assert(top =~= nothing + "/"@ + ".."@);
    law_parts_join_again(nothing, ".."@);
    law_parts_join_again(top, b);
    law_parts_join_again(nothing, b);
    assert(nothing + "/"@ + b =~= "/"@ + b);
    let above = seq![nothing] + seq![".."@];
    assert(above.drop_last() =~= seq![nothing]);
    assert(seq![nothing].drop_last() =~= none);
    assert(walked(none) =~= none);
    assert(walked(seq![nothing]) =~= none);
    assert(above.last() == ".."@);
    assert(walked(above) =~= none);
    lemma_walk_further(above, seq![nothing], parts(b));
    assert(text::joined(none, "/"@) =~= nothing);
    assert("/"@ + nothing =~= "/"@);
}

/// A relative path is looked for in the base directory, this in the current directory if it is
/// relative itself; without a base the path is looked for in the current directory. An absolute
/// path is looked for where it says.
pub proof fn law_relative_paths_start_at_base(
    base: Seq<char>,
    path: Seq<char>,
    current_dir: Seq<char>,
)
    requires
        base.len() > 0,
        base[base.len() - 1] != '/',
        current_dir.len() > 0,
        current_dir[current_dir.len() - 1] != '/',
    ensures
        path.len() > 0 && path[0] == '/' ==> located(Some(base), path, current_dir) == path
            && located(None, path, current_dir) == path,
        path.len() == 0 || path[0] != '/' ==> located(None, path, current_dir) == current_dir
            + "/"@ + path,
        (path.len() == 0 || path[0] != '/') && base[0] == '/' ==> located(
            Some(base),
            path,
            current_dir,
        ) == base + "/"@ + path,
        (path.len() == 0 || path[0] != '/') && base[0] != '/' ==> located(
            Some(base),
            path,
            current_dir,
        ) == current_dir + "/"@ + base + "/"@ + path,
{
}

/// Paths that are normal name the same place exactly if they are the same; a part that names
/// nothing makes no difference.
pub proof fn law_equal_paths_name_one_place(a: Seq<char>, b: Seq<char>)
    ensures
        equal_paths(normal(a), normal(b)) <==> normal(a) == normal(b),
        equal_paths(a + "/"@ + "."@ + "/"@ + b, a + "/"@ + b),
        a.len() > 0 ==> equal_paths(a + "/"@, a),
{
    lemma_dots();
    let nothing = Seq::<char>::empty();
    let none = Seq::<Seq<char>>::empty();
    lemma_normal_components(a);
    lemma_normal_components(b);
    law_parts_join_again(a, "."@);
    law_parts_join_again(a + "/"@ + "."@, b);
    law_parts_join_again(a, b);
    law_parts_join_again(a, nothing);
    assert(a + "/"@ + nothing =~= a + "/"@);
    law_components_go_by_parts(parts(a), seq!["."@], "."@);
    law_components_go_by_parts(parts(a) + seq!["."@], parts(b), "."@);
    law_components_go_by_parts(parts(a), parts(b), "."@);
    law_components_go_by_parts(parts(a), seq![nothing], nothing);
    assert(components(parts(a)) + none =~= components(parts(a)));
    text::law_pieces_join_again(a, "/"@);
    assert((parts(a) + seq!["."@] + parts(b))[0] == (parts(a) + parts(b))[0]);
    assert((parts(a) + seq![nothing])[0] == parts(a)[0]);
}

/// Ordinary names all name something.
proof fn lemma_plain_components(names: Seq<Seq<char>>)
    requires
        forall|k: int| 0 <= k < names.len() ==> is_plain(#[trigger] names[k]),
    ensures
        components(names) == names,
    decreases names.len(),
{
    if names.len() > 0 {
        let init = names.drop_last();
        assert forall|k: int| 0 <= k < init.len() implies is_plain(#[trigger] init[k]) by {
            assert(init[k] == names[k]);
        }
        lemma_plain_components(init);
        assert(is_plain(names[names.len() - 1]));
        assert(init.push(names.last()) =~= names);
    }
}

/// A normal path is made of its root and its components.
proof fn lemma_normal_components(path: Seq<char>)
    ensures
        components(parts(normal(path))) == walked(parts(path)),
        parts(normal(path))[0] != "."@,
        is_absolute(normal(path)) == is_absolute(path),
{
    lemma_dots();
    lemma_normal_parts(path);
    let names = walked(parts(path));
    let tail = text::joined(names, "/"@);
    let nothing = Seq::<char>::empty();
    let none = Seq::<Seq<char>>::empty();
    assert forall|k: int| 0 <= k < names.len() implies !(#[trigger] names[k]).contains(
        "/"@[0],
    ) by {
        assert(is_plain(names[k]));
    }
    lemma_plain_components(names);
    law_components_go_by_parts(seq![nothing], parts(tail), nothing);
    if names.len() > 0 {
        text::lemma_pieces_joined(names, "/"@);
        assert(is_plain(names[0]));
    } else {
        assert(tail =~= nothing);
    }
    if is_absolute(path) {
        assert(normal(path) =~= nothing + "/"@ + tail);
        law_parts_join_again(nothing, tail);
        assert(none + components(parts(tail)) =~= components(parts(tail)));
    } else {
        assert(normal(path) =~= tail);
    }
}

/// Where a path is looked for is found by putting it behind directories: behind the base, this
/// behind the current directory; without a base, behind the current directory.
pub proof fn law_paths_are_located_by_joining(
    base: Seq<char>,
    path: Seq<char>,
    current_dir: Seq<char>,
)
    ensures
        path.len() > 0 && path[0] == '/' ==> located(Some(base), path, current_dir) == path
            && located(None, path, current_dir) == path,
        path.len() == 0 || path[0] != '/' ==> located(Some(base), path, current_dir) == path_in(
            path_in(current_dir, base),
            path,
        ) && located(None, path, current_dir) == path_in(current_dir, path),
{
}

/// At the start of a relative path neither the current nor the parent directory counts: there is
/// nothing above where it starts.
pub proof fn law_relative_paths_start_at_names(path: Seq<char>)
    requires
        path.len() > 0,
        path[0] != '/',
    ensures
        normal("."@ + "/"@ + path) == normal(path),
        normal(".."@ + "/"@ + path) == normal(path),
        normal("."@).len() == 0,
        normal(".."@).len() == 0,
        normal(Seq::empty()).len() == 0,
{
    lemma_dots();
    let none = Seq::<Seq<char>>::empty();
    let nothing = Seq::<char>::empty();
    law_parts_join_again("."@, path);
    law_parts_join_again(".."@, path);
    assert(seq!["."@].drop_last() =~= none);
    assert(seq![".."@].drop_last() =~= none);
    assert(seq![nothing].drop_last() =~= none);
    assert(walked(none) =~= none);
    assert(seq!["."@].last() == "."@ && seq![".."@].last() == ".."@);
    assert(walked(seq!["."@]) =~= none);
    assert(walked(seq![".."@]) =~= none);
    assert(walked(seq![nothing]) =~= none);
    lemma_walk_further(seq!["."@], none, parts(path));
    lemma_walk_further(seq![".."@], none, parts(path));
    assert(none + parts(path) =~= parts(path));
    assert(text::joined(none, "/"@) =~= nothing);
}

/// A path has the extension of its final name, and none without one.
pub proof fn law_extension_is_that_of_the_name(path: Seq<char>)
    ensures
        name_of(path) matches Some(name) ==> extension_of(path) == suffix_of(name),
        name_of(path) is None ==> extension_of(path) is None && inner_extension_of(path) is None,
{
}

/// Paths that start differently name different places: at the root, at the current directory by its
/// sign, or at a name. So do paths whose components differ.
pub proof fn law_different_paths_are_told_apart(path: Seq<char>, other: Seq<char>)
    requires
        path.len() > 0,
        path[0] != '/',
        path[0] != '.',
    ensures
        !equal_paths("."@ + "/"@ + path, path),
        !equal_paths("/"@ + path, path),
        components(parts(path)) != components(parts(other)) ==> !equal_paths(path, other),
        equal_paths(path, other) ==> is_absolute(path) == is_absolute(other),
{
    lemma_dots();
    law_parts_join_again("."@, path);
    law_parts_join_again(path, path);
    let first = parts(path)[0];
    assert(parts("."@ + "/"@ + path)[0] == "."@);
    text::law_pieces_join_again(path, "/"@);
    if first == "."@ {
        assert(text::joined(parts(path), "/"@)[0] == '.') by {
            lemma_joined_start(parts(path), "/"@);
        }
    }
    assert(("/"@ + path)[0] == '/');
}

} // verus!
