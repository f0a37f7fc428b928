//! Preparation of a compose service: image name, volumes and environment files.
use crate::paths::{self, normalize_path_with_base};
use crate::formats::Duplicate;
use crate::text::{self, contains, count, split_once, starts_with};
use crate::tree::{self, find_key, Tree, TreeView};
use vstd::prelude::*;

verus! {

/// The pairs of a mapping.
pub type Pairs = Seq<(TreeView, TreeView)>;

/// Where a service's relative paths start.
pub struct Site<'a> {
    /// The directory of the compose file.
    pub base: Option<&'a str>,
    /// The current directory.
    pub current_dir: &'a str,
}

/// What a site says.
pub struct SiteView {
    pub base: Option<Seq<char>>,
    pub current_dir: Seq<char>,
}

impl<'a> View for Site<'a> {
    type V = SiteView;

    open spec fn view(&self) -> SiteView {
        SiteView {
            base: text::str_view(self.base),
            current_dir: self.current_dir@,
        }
    }
}

/// The text names a path rather than a volume.
pub open spec fn names_path(s: Seq<char>) -> bool {
    text::holds(s, "/"@) || text::begins(s, "."@)
}

/// The path made absolute and normal.
pub open spec fn resolved(path: Seq<char>, site: SiteView) -> Seq<char> {
    paths::normal(paths::located(site.base, path, site.current_dir))
}

/// A volume with its host path resolved.
pub open spec fn volume_of(item: TreeView, site: SiteView) -> TreeView {
    match tree::text_of(item) {
        Some(s) => match text::cut(s, ":"@) {
            Some((host, rest)) if names_path(host) => TreeView::Text(
                resolved(host, site) + ":"@ + rest,
            ),
            _ => item,
        },
        None => item,
    }
}

/// An item of a list of environment files, resolved.
pub open spec fn env_file_of(item: TreeView, site: SiteView) -> TreeView {
    match tree::text_of(item) {
        Some(s) if names_path(s) => TreeView::Text(resolved(s, site)),
        _ => item,
    }
}

/// The value under `volumes`, each volume resolved.
pub open spec fn volumes_value(value: TreeView, site: SiteView) -> TreeView
    decreases value,
{
    match value {
        TreeView::Tagged(tag, inner) => TreeView::Tagged(
            tag,
            Box::new(volumes_value(*inner, site)),
        ),
        TreeView::Sequence(items) => TreeView::Sequence(
            Seq::new(items.len(), |i: int| volume_of(items[i], site)),
        ),
        _ => value,
    }
}

/// The value under `env_file`, a path or a list of paths, resolved.
pub open spec fn env_file_value(value: TreeView, site: SiteView) -> TreeView {
    match value {
        TreeView::Text(s) if names_path(s) => TreeView::Text(resolved(s, site)),
        TreeView::Sequence(items) => TreeView::Sequence(
            Seq::new(items.len(), |i: int| env_file_of(items[i], site)),
        ),
        _ => value,
    }
}

/// The value of an image name that does not spell out its registry.
pub open spec fn is_short_image(value: TreeView) -> bool {
    match tree::text_of(value) {
        Some(s) => text::count_of(s, '/') < 2,
        None => false,
    }
}

/// The mapping with another value at a place.
pub open spec fn with_value(pairs: Pairs, i: int, value: TreeView) -> Pairs {
    pairs.update(i, (pairs[i].0, value))
}

/// The service with its short image name replaced by the qualified one, where there is one.
pub open spec fn with_image(pairs: Pairs, qualified: Option<Seq<char>>) -> Pairs {
    match (tree::key_index(pairs, "image"@), qualified) {
        (Some(i), Some(name)) if is_short_image(pairs[i].1) => with_value(
            pairs,
            i,
            TreeView::Text(name),
        ),
        _ => pairs,
    }
}

/// The service with its volumes resolved.
pub open spec fn with_volumes(pairs: Pairs, site: SiteView) -> Pairs {
    match tree::key_index(pairs, "volumes"@) {
        Some(i) => with_value(pairs, i, volumes_value(pairs[i].1, site)),
        None => pairs,
    }
}

/// The service with its environment files resolved.
pub open spec fn with_env_file(pairs: Pairs, site: SiteView) -> Pairs {
    match tree::key_index(pairs, "env_file"@) {
        Some(i) => with_value(pairs, i, env_file_value(pairs[i].1, site)),
        None => pairs,
    }
}

/// A service with image name, volumes and environment files prepared. What is no mapping stays.
pub open spec fn prepared(
    service: TreeView,
    qualified: Option<Seq<char>>,
    site: SiteView,
) -> TreeView
    decreases service,
{
    match service {
        TreeView::Tagged(tag, inner) => TreeView::Tagged(
            tag,
            Box::new(prepared(*inner, qualified, site)),
        ),
        TreeView::Mapping(pairs) => TreeView::Mapping(
            with_env_file(with_volumes(with_image(pairs, qualified), site), site),
        ),
        _ => service,
    }
}

/// The image name of a service that is to be qualified.
pub open spec fn image_wanted(service: TreeView) -> Option<Seq<char>> {
    match tree::untagged(service) {
        TreeView::Mapping(pairs) => match tree::key_index(pairs, "image"@) {
            Some(i) if is_short_image(pairs[i].1) => tree::text_of(pairs[i].1),
            _ => None,
        },
        _ => None,
    }
}

/// Whether a text names a path rather than a volume.
fn is_path(s: &str) -> (r: bool)
    ensures
        r == names_path(s@),
{
    contains(s, "/") || starts_with(s, ".")
}

/// The path made absolute and normal.
fn resolve(path: &str, site: &Site) -> (r: String)
    ensures
        r@ == resolved(path@, site@),
{
    normalize_path_with_base(site.base, path, site.current_dir)
}

/// A volume with its host path resolved.
fn resolve_volume(item: &Tree, site: &Site) -> (r: Tree)
    ensures
        r@ == volume_of(item@, site@),
{
    if let Some(s) = item.as_text() {
        if let Some((host, rest)) = split_once(s.as_str(), ":") {
            if is_path(host) {
                return Tree::Text(resolve(host, site).concat(":").concat(rest));
            }
        }
    }
    item.copy()
}

/// An item of a list of environment files, resolved.
fn resolve_env_file(item: &Tree, site: &Site) -> (r: Tree)
    ensures
        r@ == env_file_of(item@, site@),
{
    if let Some(s) = item.as_text() {
        if is_path(s.as_str()) {
            return Tree::Text(resolve(s.as_str(), site));
        }
    }
    item.copy()
}

/// The value under `volumes`, each volume resolved.
fn resolve_volumes(value: &Tree, site: &Site) -> (r: Tree)
    ensures
        r@ == volumes_value(value@, site@),
    decreases value,
{
    match value {
        Tree::Tagged(tag, inner) => Tree::Tagged(
            tag.clone(),
            Box::new(resolve_volumes(inner, site)),
        ),
        Tree::Sequence(items) => {
            let ghost all = tree::values_view(items@);
            let mut r: Vec<Tree> = Vec::new();
            let mut i: usize = 0;
            proof {
                tree::lemma_values_view(items@);
            }
            while i < items.len()
                invariant
                    i <= items@.len() == all.len(),
                    forall|j: int| 0 <= j < all.len() ==> #[trigger] all[j] == items@[j]@,
                    r@.len() == i,
                    forall|j: int| 0 <= j < i ==> (#[trigger] r@[j])@ == volume_of(all[j], site@),
                decreases items@.len() - i,
            {
                r.push(resolve_volume(&items[i], site));
                i += 1;
            }
            proof {
                tree::lemma_values_view(r@);
                assert(tree::values_view(r@) =~= Seq::new(
                    all.len(),
                    |i: int| volume_of(all[i], site@),
                ));
            }
            Tree::Sequence(r)
        },
        _ => value.copy(),
    }
}

/// The value under `env_file`, resolved.
fn resolve_env_files(value: &Tree, site: &Site) -> (r: Tree)
    ensures
        r@ == env_file_value(value@, site@),
{
    match value {
        Tree::Text(s) => {
            if is_path(s.as_str()) {
                Tree::Text(resolve(s.as_str(), site))
            } else {
                value.copy()
            }
        },
        Tree::Sequence(items) => {
            let ghost all = tree::values_view(items@);
            let mut r: Vec<Tree> = Vec::new();
            let mut i: usize = 0;
            proof {
                tree::lemma_values_view(items@);
            }
            while i < items.len()
                invariant
                    i <= items@.len() == all.len(),
                    forall|j: int| 0 <= j < all.len() ==> #[trigger] all[j] == items@[j]@,
                    r@.len() == i,
                    forall|j: int| 0 <= j < i ==> (#[trigger] r@[j])@ == env_file_of(all[j], site@),
                decreases items@.len() - i,
            {
                r.push(resolve_env_file(&items[i], site));
                i += 1;
            }
            proof {
                tree::lemma_values_view(r@);
                assert(tree::values_view(r@) =~= Seq::new(
                    all.len(),
                    |i: int| env_file_of(all[i], site@),
                ));
            }
            Tree::Sequence(r)
        },
        _ => value.copy(),
    }
}

/// Puts another value at a place of a mapping.
fn put_value(pairs: &mut Vec<(Tree, Tree)>, i: usize, value: Tree)
    requires
        i < old(pairs)@.len(),
    ensures
        tree::pairs_view(final(pairs)@) == with_value(
            tree::pairs_view(old(pairs)@),
            i as int,
            value@,
        ),
{
    let ghost before = pairs@;
    let ghost content = value@;
    let key = pairs[i].0.copy();
    pairs.set(i, (key, value));
    proof {
        tree::lemma_pairs_view(before);
        tree::lemma_pairs_view(pairs@);
        assert(tree::pairs_view(pairs@) =~= with_value(
            tree::pairs_view(before),
            i as int,
            content,
        ));
    }
}

/// Whether a value is an image name that does not spell out its registry.
fn short_image(value: &Tree) -> (r: bool)
    ensures
        r == is_short_image(value@),
{
    match value.as_text() {
        Some(s) => count(s.as_str(), '/') < 2,
        None => false,
    }
}

/// The image name of a service that is to be qualified.
pub fn image_to_qualify(service: &Tree) -> (r: Option<String>)
    ensures
        match r {
            Some(name) => image_wanted(service@) == Some(name@),
            None => image_wanted(service@) is None,
        },
    decreases service,
{
    match service {
        Tree::Tagged(_, inner) => image_to_qualify(inner),
        Tree::Mapping(pairs) => {
            proof {
                tree::lemma_pairs_view(pairs@);
            }
            match find_key(pairs, "image") {
                Some(i) => {
                    if short_image(&pairs[i].1) {
                        match pairs[i].1.as_text() {
                            Some(name) => Some(name.clone()),
                            None => None,
                        }
                    } else {
                        None
                    }
                },
                None => None,
            }
        },
        _ => None,
    }
}

/// Prepares image name, volumes and environment files of a service.
pub fn prepare_service(service: Tree, qualified: &Option<String>, site: &Site) -> (r: Tree)
    ensures
        r@ == prepared(
            service@,
            text::string_view(*qualified),
            site@,
        ),
    decreases service,
{
    match service {
        Tree::Tagged(tag, inner) => Tree::Tagged(
            tag,
            Box::new(prepare_service(*inner, qualified, site)),
        ),
        Tree::Mapping(given) => {
            let mut pairs = given;
            proof {
                tree::lemma_pairs_view(pairs@);
            }
            if let Some(i) = find_key(&pairs, "image") {
                if let Some(name) = qualified {
                    if short_image(&pairs[i].1) {
                        put_value(&mut pairs, i, Tree::Text(name.clone()));
                    }
                }
            }
            proof {
                tree::lemma_pairs_view(pairs@);
            }
            if let Some(i) = find_key(&pairs, "volumes") {
                let value = resolve_volumes(&pairs[i].1, site);
                put_value(&mut pairs, i, value);
            }
            proof {
                tree::lemma_pairs_view(pairs@);
            }
            if let Some(i) = find_key(&pairs, "env_file") {
                let value = resolve_env_files(&pairs[i].1, site);
                put_value(&mut pairs, i, value);
            }
            Tree::Mapping(pairs)
        },
        _ => service,
    }
}

/// A resolved path is absolute, and resolving it again changes nothing.
pub proof fn law_resolved_is_settled(path: Seq<char>, site: SiteView)
    requires
        paths::is_absolute(site.current_dir),
    ensures
        paths::is_absolute(resolved(path, site)),
        names_path(resolved(path, site)),
        resolved(resolved(path, site), site) == resolved(path, site),
{
    paths::law_located_is_absolute(site.base, path, site.current_dir);
    paths::law_normal_is_stable(paths::located(site.base, path, site.current_dir));
    reveal_strlit("/");
    let r = resolved(path, site);
    assert(r.take(1) =~= "/"@);
    assert(text::begins(r, "/"@));
}

/// The first separator stands where the text before it, which has none, ends.
proof fn lemma_cut_at(head: Seq<char>, rest: Seq<char>)
    requires
        !head.contains(':'),
    ensures
        text::cut(head + ":"@ + rest, ":"@) == Some((head, rest)),
{
    reveal_strlit(":");
    let s = head + ":"@ + rest;
    let n = head.len() as int;
    assert(s.skip(n).take(1) =~= ":"@);
    assert forall|j: int| 0 <= j < n implies !text::begins(#[trigger] s.skip(j), ":"@) by {
        assert(s.skip(j)[0] == head[j]);
        assert(head.contains(head[j]));
        if text::begins(s.skip(j), ":"@) {
            assert(s.skip(j).take(1)[0] == ':');
        }
    }
    text::lemma_find_is(s, ":"@, n);
    assert(s.take(n) =~= head);
    assert(s.skip(n + 1) =~= rest);
}

/// A volume whose host side is a path gets an absolute, normal host path and keeps the rest.
pub proof fn law_volume_is_resolved(host: Seq<char>, rest: Seq<char>, site: SiteView)
    requires
        paths::is_absolute(site.current_dir),
        !host.contains(':'),
        names_path(host),
    ensures
        volume_of(TreeView::Text(host + ":"@ + rest), site) == TreeView::Text(
            resolved(host, site) + ":"@ + rest,
        ),
        paths::is_absolute(resolved(host, site)),
        paths::normal(resolved(host, site)) == resolved(host, site),
{
    lemma_cut_at(host, rest);
    law_resolved_is_settled(host, site);
    paths::law_normal_is_stable(paths::located(site.base, host, site.current_dir));
}

/// A named volume stays as it is.
pub proof fn law_named_volume_stays(name: Seq<char>, rest: Seq<char>, site: SiteView)
    requires
        !name.contains(':'),
        !names_path(name),
    ensures
        volume_of(TreeView::Text(name + ":"@ + rest), site) == TreeView::Text(
            name + ":"@ + rest,
        ),
{
    lemma_cut_at(name, rest);
}

/// Resolving a volume again changes nothing, unless its resolved host path holds a colon.
pub proof fn law_volume_is_settled(item: TreeView, site: SiteView)
    requires
        paths::is_absolute(site.current_dir),
        tree::text_of(item) matches Some(s) ==> (text::cut(s, ":"@) matches Some((host, _))
            ==> !resolved(host, site).contains(':')),
    ensures
        volume_of(volume_of(item, site), site) == volume_of(item, site),
{
    if let Some(s) = tree::text_of(item) {
        if let Some((host, rest)) = text::cut(s, ":"@) {
            if names_path(host) {
                law_resolved_is_settled(host, site);
                lemma_cut_at(resolved(host, site), rest);
            }
        }
    }
}

/// Resolving the value of `env_file` again changes nothing.
pub proof fn law_env_file_is_settled(value: TreeView, site: SiteView)
    requires
        paths::is_absolute(site.current_dir),
    ensures
        env_file_value(env_file_value(value, site), site) == env_file_value(value, site),
{
    match value {
        TreeView::Text(s) if names_path(s) => {
            law_resolved_is_settled(s, site);
        },
        TreeView::Sequence(items) => {
            let once = Seq::new(items.len(), |i: int| env_file_of(items[i], site));
            let twice = Seq::new(once.len(), |i: int| env_file_of(once[i], site));
            assert forall|i: int| 0 <= i < items.len() implies once[i] == twice[i] by {
                if let Some(s) = tree::text_of(items[i]) {
                    law_resolved_is_settled(s, site);
                }
            }
            assert(once =~= twice);
        },
        _ => {},
    }
}

/// Preparing a service keeps its keys in their order, and every value but those under `image`,
/// `volumes` and `env_file`.
pub proof fn law_other_settings_stay(
    pairs: Pairs,
    qualified: Option<Seq<char>>,
    site: SiteView,
    k: int,
)
    requires
        0 <= k < pairs.len(),
    ensures
        prepared(TreeView::Mapping(pairs), qualified, site) matches TreeView::Mapping(after)
            && after.len() == pairs.len() && after[k].0 == pairs[k].0 && (pairs[k].0
            != TreeView::Text("image"@) && pairs[k].0 != TreeView::Text("volumes"@)
            && pairs[k].0 != TreeView::Text("env_file"@) ==> after[k].1 == pairs[k].1),
{
    let first = with_image(pairs, qualified);
    let second = with_volumes(first, site);
    tree::lemma_key_index(pairs, "image"@);
    tree::lemma_key_index(first, "volumes"@);
    tree::lemma_key_index(second, "env_file"@);
}

/// A short image name is replaced by the qualified one, where there is one. Any other value under
/// `image` stays.
pub proof fn law_short_image_is_qualified(
    pairs: Pairs,
    qualified: Option<Seq<char>>,
    site: SiteView,
    i: int,
)
    requires
        tree::key_index(pairs, "image"@) == Some(i),
    ensures
        prepared(TreeView::Mapping(pairs), qualified, site) matches TreeView::Mapping(after)
            && after.len() == pairs.len() && 0 <= i < after.len() && after[i].1 == (
        match qualified {
            Some(name) if is_short_image(pairs[i].1) => TreeView::Text(name),
            _ => pairs[i].1,
        }),
{
    reveal_strlit("image");
    reveal_strlit("volumes");
    reveal_strlit("env_file");
    assert("image"@.len() != "volumes"@.len());
    assert("image"@.len() != "env_file"@.len());
    let first = with_image(pairs, qualified);
    let second = with_volumes(first, site);
    tree::lemma_key_index(pairs, "image"@);
    tree::lemma_key_index(first, "volumes"@);
    tree::lemma_key_index(second, "env_file"@);
}

/// A text names a path if it holds a slash or begins with a dot, and else a volume.
pub proof fn law_paths_are_told_by_characters(s: Seq<char>)
    ensures
        names_path(s) <==> s.contains('/') || (s.len() > 0 && s[0] == '.'),
{
    reveal_strlit("/");
    reveal_strlit(".");
    assert("/"@[0] == '/');
    text::law_holds_characters(s, "/"@);
    if s.len() > 0 && s[0] == '.' {
        assert(s.take(1) =~= "."@);
    }
    if text::begins(s, "."@) {
        assert(s.take(1)[0] == s[0]);
    }
}

/// A relative path is resolved beside the compose file; without one, in the current directory. An
/// absolute path is only made normal.
pub proof fn law_paths_are_resolved_beside_the_file(
    path: Seq<char>,
    dir: Seq<char>,
    current_dir: Seq<char>,
)
    requires
        dir.len() > 0,
        dir[dir.len() - 1] != '/',
        current_dir.len() > 0,
        current_dir[current_dir.len() - 1] != '/',
    ensures
        ({
            let beside = SiteView { base: Some(dir), current_dir };
            let alone = SiteView { base: None, current_dir };
            let relative = path.len() == 0 || path[0] != '/';
            &&& relative && dir[0] == '/' ==> resolved(path, beside) == paths::normal(
                dir + "/"@ + path,
            )
            &&& relative && dir[0] != '/' ==> resolved(path, beside) == paths::normal(
                current_dir + "/"@ + dir + "/"@ + path,
            )
            &&& relative ==> resolved(path, alone) == paths::normal(current_dir + "/"@ + path)
            &&& !relative ==> resolved(path, beside) == paths::normal(path)
            &&& !relative ==> resolved(path, alone) == paths::normal(path)
        }),
{
    paths::law_relative_paths_start_at_base(dir, path, current_dir);
}

/// A path in the directory of the compose file is that directory with the names of the path behind
/// it; the current directory in front of the path does not count.
pub proof fn law_local_path_joins_directory(
    dirs: Seq<Seq<char>>,
    names: Seq<Seq<char>>,
    current_dir: Seq<char>,
)
    requires
        dirs.len() > 0,
        names.len() > 0,
        forall|k: int|
            0 <= k < dirs.len() ==> (#[trigger] dirs[k]).len() > 0 && dirs[k] != "."@ && dirs[k]
                != ".."@ && !dirs[k].contains('/'),
        forall|k: int|
            0 <= k < names.len() ==> (#[trigger] names[k]).len() > 0 && names[k] != "."@ && names[k]
                != ".."@ && !names[k].contains('/'),
    ensures
        ({
            let dir = "/"@ + text::joined(dirs, "/"@);
            let local = text::joined(names, "/"@);
            let site = SiteView { base: Some(dir), current_dir };
            &&& resolved(local, site) == dir + "/"@ + local
            &&& resolved("."@ + "/"@ + local, site) == dir + "/"@ + local
        }),
{
    reveal_strlit("/");
    reveal_strlit(".");
    let tops = text::joined(dirs, "/"@);
    let dir = "/"@ + tops;
    let local = text::joined(names, "/"@);
    let all = dirs + names;
    lemma_joined_both(dirs, names, "/"@);
    assert forall|k: int|
        0 <= k < all.len() implies (#[trigger] all[k]).len() > 0 && all[k] != "."@ && all[k]
        != ".."@ && !all[k].contains('/') by {
        if k < dirs.len() {
            assert(all[k] == dirs[k]);
        } else {
            assert(all[k] == names[k - dirs.len()]);
        }
    }
    paths::law_plain_paths_stay(all);
    let whole = dir + "/"@ + local;
    assert(whole =~= "/"@ + text::joined(all, "/"@));
    lemma_joined_first(names, "/"@);
    assert(names[0].contains(names[0][0]));
    lemma_joined_last(dirs, "/"@);
    let last = dirs[dirs.len() - 1];
    assert(last.contains(last[last.len() - 1]));
    assert(dir[dir.len() - 1] == tops[tops.len() - 1]);
    assert(dir[0] == '/');
    paths::law_path_is_put_behind_directory(dir, local);
    paths::law_path_is_put_behind_directory(dir, "."@ + "/"@ + local);
    paths::law_path_is_put_behind_directory(current_dir, dir);
    paths::law_idle_parts_vanish(dir, local);
    assert(dir + "/"@ + ("."@ + "/"@ + local) =~= dir + "/"@ + "."@ + "/"@ + local);
}

proof fn lemma_joined_both(a: Seq<Seq<char>>, b: Seq<Seq<char>>, sep: Seq<char>)
    requires
        a.len() > 0,
        b.len() > 0,
    ensures
        text::joined(a + b, sep) == text::joined(a, sep) + sep + text::joined(b, sep),
    decreases b.len(),
{
    let init = b.drop_last();
    assert((a + b).drop_last() =~= a + init);
    assert((a + b).last() == b.last());
    if b.len() == 1 {
        assert(a + init =~= a);
        assert(text::joined(b, sep) == b[0]);
    } else {
        lemma_joined_both(a, init, sep);
        assert(text::joined(a + b, sep) =~= text::joined(a, sep) + sep + text::joined(b, sep));
    }
}

proof fn lemma_joined_first(names: Seq<Seq<char>>, sep: Seq<char>)
    requires
        names.len() > 0,
        names[0].len() > 0,
    ensures
        text::joined(names, sep).len() > 0,
        text::joined(names, sep)[0] == names[0][0],
    decreases names.len(),
{
    if names.len() > 1 {
        lemma_joined_first(names.drop_last(), sep);
    }
}

proof fn lemma_joined_last(names: Seq<Seq<char>>, sep: Seq<char>)
    requires
        names.len() > 0,
        names[names.len() - 1].len() > 0,
    ensures
        text::joined(names, sep).len() > 0,
        text::joined(names, sep)[text::joined(names, sep).len() - 1] == names[names.len()
            - 1][names[names.len() - 1].len() - 1],
{
}

/// A volume of a host path and a place in the container gets its host path resolved, and nothing
/// else of it changes. A volume with a name, one without a colon, and what is no text stay.
pub proof fn law_volumes_are_resolved(
    host: Seq<char>,
    rest: Seq<char>,
    tag: Seq<char>,
    other: TreeView,
    site: SiteView,
)
    requires
        !host.contains(':'),
        other is Null || other is Bool || other is Number || other is Sequence || other is Mapping,
    ensures
        host.contains('/') || (host.len() > 0 && host[0] == '.') ==> volume_of(
            TreeView::Text(host + ":"@ + rest),
            site,
        ) == TreeView::Text(resolved(host, site) + ":"@ + rest) && volume_of(
            TreeView::Tagged(tag, Box::new(TreeView::Text(host + ":"@ + rest))),
            site,
        ) == TreeView::Text(resolved(host, site) + ":"@ + rest),
        !host.contains('/') && !(host.len() > 0 && host[0] == '.') ==> volume_of(
            TreeView::Text(host + ":"@ + rest),
            site,
        ) == TreeView::Text(host + ":"@ + rest),
        volume_of(TreeView::Text(host), site) == TreeView::Text(host),
        volume_of(other, site) == other,
{
    law_paths_are_told_by_characters(host);
    lemma_cut_at(host, rest);
    reveal_strlit(":");
    assert(":"@[0] == ':');
    text::law_holds_characters(host, ":"@);
    text::law_cut_takes_apart(host, ":"@);
    let whole = TreeView::Text(host + ":"@ + rest);
    assert(tree::untagged(whole) == whole);
    assert(tree::untagged(TreeView::Tagged(tag, Box::new(whole))) == whole);
    assert(tree::untagged(other) == other);
}

/// An environment file that is named by a path is resolved, alone or in a list; any other text, and
/// what is no text, stays.
pub proof fn law_env_files_are_resolved(
    s: Seq<char>,
    items: Seq<TreeView>,
    k: int,
    other: TreeView,
    site: SiteView,
)
    requires
        0 <= k < items.len(),
        other is Null || other is Bool || other is Number || other is Mapping || other is Tagged,
    ensures
        s.contains('/') || (s.len() > 0 && s[0] == '.') ==> env_file_value(TreeView::Text(s), site)
            == TreeView::Text(resolved(s, site)),
        !s.contains('/') && !(s.len() > 0 && s[0] == '.') ==> env_file_value(
            TreeView::Text(s),
            site,
        ) == TreeView::Text(s),
        env_file_value(other, site) == other,
        env_file_value(TreeView::Sequence(items), site) matches TreeView::Sequence(done)
            && done.len() == items.len() && (items[k] == TreeView::Text(s) ==> done[k]
            == env_file_value(TreeView::Text(s), site)) && (!(items[k] is Text) && !(
        items[k] is Tagged) ==> done[k] == items[k]),
{
    law_paths_are_told_by_characters(s);
    assert(tree::untagged(TreeView::Text(s)) == TreeView::Text(s));
    assert(!(items[k] is Tagged) ==> tree::untagged(items[k]) == items[k]);
}

/// Each volume of a list is resolved by itself; a tag in front of the list stays, and so does what
/// is no list.
pub proof fn law_each_volume_is_resolved(
    items: Seq<TreeView>,
    k: int,
    tag: Seq<char>,
    value: TreeView,
    other: TreeView,
    site: SiteView,
)
    requires
        0 <= k < items.len(),
        other is Null || other is Bool || other is Number || other is Text || other is Mapping,
    ensures
        volumes_value(TreeView::Sequence(items), site) matches TreeView::Sequence(done)
            && done.len() == items.len() && done[k] == volume_of(items[k], site),
        volumes_value(TreeView::Tagged(tag, Box::new(value)), site) == TreeView::Tagged(
            tag,
            Box::new(volumes_value(value, site)),
        ),
        volumes_value(other, site) == other,
{
}

/// An image name with fewer than two slashes is short: it does not name a registry, a place in it
/// and an image. What is no text is no image name.
pub proof fn law_short_images_have_few_slashes(
    a: Seq<char>,
    b: Seq<char>,
    c: Seq<char>,
    other: TreeView,
)
    requires
        !a.contains('/'),
        !b.contains('/'),
        other is Null || other is Bool || other is Number || other is Sequence || other is Mapping,
    ensures
        is_short_image(TreeView::Text(a)),
        is_short_image(TreeView::Text(a + "/"@ + b)),
        !is_short_image(TreeView::Text(a + "/"@ + b + "/"@ + c)),
        !is_short_image(other),
{
    reveal_strlit("/");
    assert("/"@ =~= seq!['/']);
    text::lemma_count_none(a, '/');
    text::lemma_count_none(b, '/');
    text::law_count_goes_by_characters(a, "/"@, '/', '/');
    text::law_count_goes_by_characters(a + "/"@, b, '/', '/');
    text::law_count_goes_by_characters(a + "/"@ + b, "/"@, '/', '/');
    text::law_count_goes_by_characters(a + "/"@ + b + "/"@, c, '/', '/');
    assert(tree::untagged(TreeView::Text(a)) == TreeView::Text(a));
    assert(tree::untagged(TreeView::Text(a + "/"@ + b)) == TreeView::Text(a + "/"@ + b));
    let long = TreeView::Text(a + "/"@ + b + "/"@ + c);
    assert(tree::untagged(long) == long);
    assert(tree::untagged(other) == other);
}

/// The words that a service is prepared by are all different.
proof fn lemma_keys_differ()
    ensures
        "image"@ != "volumes"@,
        "image"@ != "env_file"@,
        "volumes"@ != "env_file"@,
{
    reveal_strlit("image");
    reveal_strlit("volumes");
    reveal_strlit("env_file");
    assert("image"@.len() == 5 && "volumes"@.len() == 7 && "env_file"@.len() == 8);
}

/// Preparing a service treats each of its three settings by itself, whatever else the service has:
/// the value under `image` is qualified if it is short, the one under `volumes` and the one under
/// `env_file` are resolved. Every key stays in its place, and so does every other value.
pub proof fn law_each_setting_is_prepared(
    pairs: Pairs,
    qualified: Option<Seq<char>>,
    site: SiteView,
    k: int,
)
    requires
        0 <= k < pairs.len(),
        forall|i: int, j: int|
            0 <= i < j < pairs.len() ==> (#[trigger] pairs[i]).0 != (#[trigger] pairs[j]).0,
    ensures
        prepared(TreeView::Mapping(pairs), qualified, site) matches TreeView::Mapping(after)
            && after.len() == pairs.len() && after[k].0 == pairs[k].0 && after[k].1 == (
        if pairs[k].0 == TreeView::Text("env_file"@) {
            env_file_value(pairs[k].1, site)
        } else if pairs[k].0 == TreeView::Text("volumes"@) {
            volumes_value(pairs[k].1, site)
        } else if pairs[k].0 == TreeView::Text("image"@) && is_short_image(pairs[k].1)
            && qualified is Some {
            TreeView::Text(qualified->Some_0)
        } else {
            pairs[k].1
        }),
{
    lemma_keys_differ();
    let first = with_image(pairs, qualified);
    let second = with_volumes(first, site);
    let third = with_env_file(second, site);
    tree::law_key_is_found_first(pairs, "image"@);
    tree::law_key_is_found_first(first, "volumes"@);
    tree::law_key_is_found_first(second, "env_file"@);
    assert(first.len() == pairs.len() && second.len() == pairs.len() && third.len()
        == pairs.len());
    assert forall|i: int| 0 <= i < pairs.len() implies first[i].0 == pairs[i].0 && second[i].0
        == pairs[i].0 && third[i].0 == pairs[i].0 by {}
    assert(first[k].0 == pairs[k].0 && second[k].0 == pairs[k].0);
    if let Some(i) = tree::key_index(pairs, "image"@) {
        assert(i < k ==> pairs[i].0 != pairs[k].0);
        assert(k < i ==> pairs[k].0 != pairs[i].0);
    }
    if let Some(i) = tree::key_index(first, "volumes"@) {
        assert(first[i].0 == pairs[i].0);
        assert(i < k ==> pairs[i].0 != pairs[k].0);
        assert(k < i ==> pairs[k].0 != pairs[i].0);
    }
    if let Some(i) = tree::key_index(second, "env_file"@) {
        assert(second[i].0 == pairs[i].0);
        assert(i < k ==> pairs[i].0 != pairs[k].0);
        assert(k < i ==> pairs[k].0 != pairs[i].0);
    }
}

/// A tag in front of a service stays, and what is no mapping is no service and stays.
pub proof fn law_tagged_service_is_prepared(
    tag: Seq<char>,
    service: TreeView,
    other: TreeView,
    qualified: Option<Seq<char>>,
    site: SiteView,
)
    requires
        other is Null || other is Bool || other is Number || other is Text || other is Sequence,
    ensures
        prepared(TreeView::Tagged(tag, Box::new(service)), qualified, site) == TreeView::Tagged(
            tag,
            Box::new(prepared(service, qualified, site)),
        ),
        prepared(other, qualified, site) == other,
        image_wanted(TreeView::Tagged(tag, Box::new(service))) == image_wanted(service),
        image_wanted(other) is None,
{
    let whole = TreeView::Tagged(tag, Box::new(service));
    assert(tree::untagged(whole) == tree::untagged(service));
    assert(tree::untagged(other) == other);
}

/// A service asks for its image to be qualified exactly if it has an image name and this is short,
/// and asks by that name.
pub proof fn law_short_image_is_asked_for(pairs: Pairs, name: Seq<char>, i: int)
    requires
        0 <= i < pairs.len(),
        pairs[i] == (TreeView::Text("image"@), TreeView::Text(name)),
        forall|j: int| 0 <= j < i ==> (#[trigger] pairs[j]).0 != TreeView::Text("image"@),
    ensures
        image_wanted(TreeView::Mapping(pairs)) == (if text::count_of(name, '/') < 2 {
            Some(name)
        } else {
            None
        }),
        forall|rest: Pairs|
            (forall|j: int|
                0 <= j < rest.len() ==> (#[trigger] rest[j]).0 != TreeView::Text("image"@))
                ==> #[trigger] image_wanted(TreeView::Mapping(rest)) is None,
{
    tree::law_key_is_found_first(pairs, "image"@);
    let whole = TreeView::Mapping(pairs);
    assert(tree::untagged(whole) == whole);
    assert(tree::untagged(TreeView::Text(name)) == TreeView::Text(name));
    assert forall|rest: Pairs|
        (forall|j: int|
            0 <= j < rest.len() ==> (#[trigger] rest[j]).0 != TreeView::Text(
                "image"@,
            )) implies #[trigger] image_wanted(TreeView::Mapping(rest)) is None by {
        tree::law_key_is_found_first(rest, "image"@);
        assert(tree::untagged(TreeView::Mapping(rest)) == TreeView::Mapping(rest));
    }
}

/// A path is resolved by looking for it from the compose file and making it normal.
pub proof fn law_resolving_is_locating(path: Seq<char>, site: SiteView)
    ensures
        resolved(path, site) == paths::normal(
            paths::located(site.base, path, site.current_dir),
        ),
{
}

/// A tag in front of a value hides neither an image name nor an environment file in a list. An
/// environment file that is resolved loses its tag, any other item keeps it.
pub proof fn law_tags_hide_nothing(
    tag: Seq<char>,
    inner: TreeView,
    s: Seq<char>,
    items: Seq<TreeView>,
    k: int,
    site: SiteView,
)
    requires
        0 <= k < items.len(),
        items[k] == TreeView::Tagged(tag, Box::new(TreeView::Text(s))),
    ensures
        is_short_image(TreeView::Tagged(tag, Box::new(inner))) == is_short_image(inner),
        env_file_value(TreeView::Sequence(items), site) matches TreeView::Sequence(done)
            && done.len() == items.len() && done[k] == (if s.contains('/') || (s.len() > 0 && s[0]
            == '.') {
            TreeView::Text(resolved(s, site))
        } else {
            items[k]
        }),
{
    tree::law_tags_are_seen_through(tag, inner, s, TreeView::Null);
    tree::law_tags_are_seen_through(tag, TreeView::Text(s), s, TreeView::Null);
    law_paths_are_told_by_characters(s);
}

} // verus!
