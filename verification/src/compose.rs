//! Preparation of a compose file for its conversion into quadlets.
use crate::env::Environment;
use crate::formats::{self, Duplicate, StrMap};
use crate::paths::{self, file_name};
use crate::service::{self, prepare_service, Site, SiteView};
use crate::substitution::{self, substitute, Variables};
use crate::text::{self, same};
use crate::tree::{Tree, TreeView};
use vstd::prelude::*;

verus! {

/// A compose file: its services, and its other settings.
pub struct ComposeFile {
    pub services: StrMap<Tree>,
    pub other: StrMap<Tree>,
}

/// What a compose file says. The names are those of the services, in order.
#[verifier::ext_equal]
pub struct ComposeView {
    pub names: Seq<Seq<char>>,
    pub services: Map<Seq<char>, TreeView>,
    pub other: Map<Seq<char>, TreeView>,
}

impl View for ComposeFile {
    type V = ComposeView;

    open spec fn view(&self) -> ComposeView {
        ComposeView {
            names: self.services.names(),
            services: self.services@,
            other: self.other@,
        }
    }
}

impl Duplicate for ComposeFile {
    /// A copy of the file.
    fn copy(&self) -> (r: Self) {
        ComposeFile { services: self.services.copy(), other: self.other.copy() }
    }
}

/// Why a compose file cannot be prepared.
#[derive(Debug, Clone, Copy, PartialEq, Eq, Structural)]
pub enum ComposeError {
    /// The file has no services.
    NoServices,
}

impl ComposeError {
    /// The message for the user.
    pub fn message(&self) -> (r: String)
        ensures
            r@ == "No services found!"@,
    {
        "No services found!".to_owned()
    }
}

/// What came back from outside for a service.
pub struct ServiceReplies {
    /// The answers to the questions about its placeholders.
    pub confirmed: Vec<bool>,
    /// The qualified name of its image, where one was found.
    pub qualified: Option<String>,
}

/// What replies say.
pub struct RepliesView {
    pub confirmed: Seq<bool>,
    pub qualified: Option<Seq<char>>,
}

impl View for ServiceReplies {
    type V = RepliesView;

    open spec fn view(&self) -> RepliesView {
        RepliesView {
            confirmed: self.confirmed@,
            qualified: text::string_view(self.qualified),
        }
    }
}

/// What a list of replies says.
pub open spec fn replies_view(replies: Seq<ServiceReplies>) -> Seq<RepliesView> {
    replies.map_values(|r: ServiceReplies| r@)
}

/// The name given to a file that has none: that of its first service or, if this is `app`, that of
/// its directory.
pub open spec fn title(file: ComposeView, dir: Option<Seq<char>>) -> Seq<char> {
    let dir_name = match dir {
        Some(path) => paths::name_of(path),
        None => None,
    };
    match dir_name {
        Some(name) if file.names[0] == "app"@ => name,
        _ => file.names[0],
    }
}

/// The file with a name.
pub open spec fn titled(file: ComposeView, dir: Option<Seq<char>>) -> ComposeView {
    if file.other.contains_key("name"@) {
        file
    } else {
        ComposeView {
            other: file.other.insert("name"@, TreeView::Text(title(file, dir))),
            ..file
        }
    }
}

/// The question whether to call a service `app`.
pub open spec fn rename_question_text(name: Seq<char>) -> Seq<char> {
    "Do you want to rename service '"@ + name + "' to 'app'?"@
}

/// `names` with `name` among them.
pub open spec fn including(names: Seq<Seq<char>>, name: Seq<char>) -> Seq<Seq<char>> {
    if names.contains(name) {
        names
    } else {
        names.push(name)
    }
}

/// The file with its first service called `app`, if that is wanted.
pub open spec fn renamed(file: ComposeView, rename: bool) -> ComposeView {
    let first = file.names[0];
    if rename && first != "app"@ {
        ComposeView {
            names: including(formats::without(file.names, first), "app"@),
            services: file.services.remove(first).insert("app"@, file.services[first]),
            ..file
        }
    } else {
        file
    }
}

/// The file under its name, with its first service called `app` if that is wanted.
pub open spec fn arranged(file: ComposeView, dir: Option<Seq<char>>, rename: bool) -> ComposeView {
    renamed(titled(file, dir), rename)
}

/// The replies fit a file: one for each service, with one answer for each of its questions.
pub open spec fn replies_fit(
    file: ComposeView,
    vars: Variables,
    replies: Seq<RepliesView>,
) -> bool {
    &&& replies.len() == file.names.len()
    &&& forall|i: int|
        0 <= i < replies.len() ==> (#[trigger] replies[i]).confirmed.len()
            == substitution::tree_questions(file.services[file.names[i]], vars).len()
}

/// A service with its placeholders replaced and its image and paths prepared.
pub open spec fn finished_service(
    service: TreeView,
    vars: Variables,
    reply: RepliesView,
    site: SiteView,
) -> TreeView {
    service::prepared(
        substitution::substituted(service, vars, reply.confirmed),
        reply.qualified,
        site,
    )
}

/// The file with each service finished.
pub open spec fn finished(
    file: ComposeView,
    vars: Variables,
    replies: Seq<RepliesView>,
    site: SiteView,
) -> ComposeView {
    ComposeView {
        services: Map::new(
            |name: Seq<char>| file.names.contains(name),
            |name: Seq<char>|
                finished_service(
                    file.services[name],
                    vars,
                    replies[file.names.index_of(name)],
                    site,
                ),
        ),
        ..file
    }
}

/// The question whether to call the first service `app`. None is asked of a file without
/// services, and none where the service has that name.
pub fn rename_question(file: &ComposeFile) -> (r: Option<String>)
    ensures
        match r {
            Some(question) => file@.names.len() > 0 && file@.names[0] != "app"@ && question@
                == rename_question_text(file@.names[0]),
            None => file@.names.len() == 0 || file@.names[0] == "app"@,
        },
{
    if file.services.len() == 0 {
        return None;
    }
    let first = file.services.name_at(0);
    if same(first.as_str(), "app") {
        None
    } else {
        Some(
            "Do you want to rename service '".to_owned().concat(first.as_str()).concat(
                "' to 'app'?",
            ),
        )
    }
}

/// Gives the file its name, and calls its first service `app` if that is wanted.
pub fn arrange(file: ComposeFile, initial_dir: Option<&str>, rename: bool) -> (r: ComposeFile)
    requires
        file@.names.len() > 0,
    ensures
        r@ == arranged(file@, text::str_view(initial_dir), rename),
{
    let ghost given = file@;
    let mut services = file.services;
    let mut other = file.other;
    let first = services.name_at(0).clone();
    let is_app = same(first.as_str(), "app");
    if !other.contains_key("name") {
        let dir_name = match initial_dir {
            Some(dir) => file_name(dir),
            None => None,
        };
        let name = match dir_name {
            Some(name) if is_app => name.to_owned(),
            _ => first.clone(),
        };
        other.insert("name".to_owned(), Tree::Text(name));
    }
    if rename && !is_app {
        if let Some(service) = services.remove(first.as_str()) {
            services.insert("app".to_owned(), service);
        }
    }
    let r = ComposeFile { services, other };
    assert(r@ =~= arranged(given, text::str_view(initial_dir), rename));
    r
}

/// Finishes each service of an arranged file.
fn finish(
    file: &ComposeFile,
    site: &Site,
    vars: &Environment,
    replies: &Vec<ServiceReplies>,
) -> (r: StrMap<Tree>)
    requires
        replies_fit(file@, vars@, replies_view(replies@)),
    ensures
        r@ == finished(file@, vars@, replies_view(replies@), site@).services,
        r.names() == file@.names,
{
    let total: usize = file.services.len();
    let ghost names = file@.names;
    let ghost given = replies_view(replies@);
    let ghost goal = finished(file@, vars@, given, site@).services;
    let mut r: StrMap<Tree> = StrMap::new();
    let mut i: usize = 0;
    assert(r.names() =~= names.take(0));
    while i < total
        invariant
            i <= total == names.len() == replies@.len(),
            names == file@.names,
            names.no_duplicates(),
            given == replies_view(replies@),
            goal == finished(file@, vars@, given, site@).services,
            replies_fit(file@, vars@, given),
            r.is_whole(),
            r.names() == names.take(i as int),
            forall|j: int| 0 <= j < i ==> r@[#[trigger] names[j]] == goal[names[j]],
        decreases total - i,
    {
        let ghost name = names[i as int];
        proof {
            assert(given[i as int] == replies@[i as int]@);
            assert(names.contains(name));
            assert(names.index_of(name) == i);
            if names.take(i as int).contains(name) {
                let j = names.take(i as int).index_of(name);
                assert(names[j] == name);
            }
        }
        let (service, _) = substitute(file.services.value_at(i), vars, &replies[i].confirmed, 0);
        proof {
            let all = replies@[i as int].confirmed@;
            assert(all.subrange(0, all.len() as int) =~= all);
        }
        let done = prepare_service(service, &replies[i].qualified, site);
        r.insert(file.services.name_at(i).clone(), done);
        assert(names.take(i + 1) =~= names.take(i as int).push(name));
        i += 1;
    }
    proof {
        assert(names.take(names.len() as int) =~= names);
        assert forall|name: Seq<char>| #[trigger] goal.contains_key(name) implies r@[name]
            == goal[name] by {
            let j = names.index_of(name);
            assert(names[j] == name);
        }
        assert(r@ =~= goal);
    }
    r
}

/// Prepares a compose file: gives it a name, calls its first service `app` if that is wanted,
/// replaces the confirmed placeholders, puts qualified image names in, and resolves the paths of
/// volumes and environment files. `replies` are those to the services of the arranged file.
pub fn process_compose(
    file: ComposeFile,
    initial_dir: Option<&str>,
    current_dir: &str,
    rename: bool,
    vars: &Environment,
    replies: &Vec<ServiceReplies>,
) -> (r: Result<ComposeFile, ComposeError>)
    requires
        file@.names.len() > 0 ==> replies_fit(
            arranged(file@, text::str_view(initial_dir), rename),
            vars@,
            replies_view(replies@),
        ),
    ensures
        match r {
            Ok(done) => file@.names.len() > 0 && done@ == finished(
                arranged(file@, text::str_view(initial_dir), rename),
                vars@,
                replies_view(replies@),
                (SiteView { base: text::str_view(initial_dir), current_dir: current_dir@ }),
            ),
            Err(e) => file@.names.len() == 0 && e == ComposeError::NoServices,
        },
{
    if file.services.len() == 0 {
        return Err(ComposeError::NoServices);
    }
    let site = Site { base: initial_dir, current_dir };
    let arranged_file = arrange(file, initial_dir, rename);
    let services = finish(&arranged_file, &site, vars, replies);
    Ok(ComposeFile { services, other: arranged_file.other })
}

/// An arranged file has a name, and whatever else was set besides its services stays.
pub proof fn law_file_has_name(file: ComposeView, dir: Option<Seq<char>>, rename: bool)
    ensures
        arranged(file, dir, rename).other.contains_key("name"@),
        forall|key: Seq<char>| #[trigger]
            file.other.contains_key(key) ==> arranged(file, dir, rename).other.contains_key(key)
                && arranged(file, dir, rename).other[key] == file.other[key],
{
}

/// Without renaming the services stay as they are.
pub proof fn law_refused_renaming_keeps_services(file: ComposeView, dir: Option<Seq<char>>)
    ensures
        arranged(file, dir, false).services == file.services,
        arranged(file, dir, false).names == file.names,
{
}

/// Renaming moves the first service to `app` and leaves every other service alone.
pub proof fn law_renaming_moves_first_service(
    file: ComposeView,
    dir: Option<Seq<char>>,
    other: Seq<char>,
)
    requires
        file.names.len() > 0,
        file.names[0] != "app"@,
    ensures
        arranged(file, dir, true).services.contains_key("app"@),
        arranged(file, dir, true).services["app"@] == file.services[file.names[0]],
        !arranged(file, dir, true).services.contains_key(file.names[0]),
        file.services.contains_key(other) && other != "app"@ && other != file.names[0]
            ==> arranged(file, dir, true).services.contains_key(other) && arranged(
            file,
            dir,
            true,
        ).services[other] == file.services[other],
{
}

/// Finishing a file keeps the names of its services and its other settings.
pub proof fn law_finishing_keeps_the_rest(
    file: ComposeView,
    vars: Variables,
    replies: Seq<RepliesView>,
    site: SiteView,
)
    ensures
        finished(file, vars, replies, site).names == file.names,
        finished(file, vars, replies, site).other == file.other,
        finished(file, vars, replies, site).services.dom() == file.names.to_set(),
{
    assert(finished(file, vars, replies, site).services.dom() =~= file.names.to_set());
}

/// A file without a name gets that of its first service, or if this is `app`, that of its
/// directory, where it has one. Renaming has no say in it, and no other setting is added.
pub proof fn law_name_comes_from_service_or_directory(
    file: ComposeView,
    top: Seq<char>,
    name: Seq<char>,
    dir: Option<Seq<char>>,
    rename: bool,
    key: Seq<char>,
)
    requires
        file.names.len() > 0,
        !file.other.contains_key("name"@),
        name.len() > 0,
        name != "."@,
        name != ".."@,
        !name.contains('/'),
    ensures
        file.names[0] != "app"@ ==> arranged(file, dir, rename).other["name"@] == TreeView::Text(
            file.names[0],
        ),
        file.names[0] == "app"@ ==> arranged(
            file,
            Some(top + "/"@ + name),
            rename,
        ).other["name"@] == TreeView::Text(name),
        file.names[0] == "app"@ ==> arranged(file, Some(name), rename).other["name"@]
            == TreeView::Text(name),
        file.names[0] == "app"@ ==> arranged(file, None, rename).other["name"@] == TreeView::Text(
            "app"@,
        ),
        arranged(file, dir, rename).other.contains_key(key) <==> key == "name"@
            || file.other.contains_key(key),
{
    paths::law_name_stands_last(top, name);
}

/// A file that has a name keeps it, and all its other settings are those it had.
pub proof fn law_given_name_stays(file: ComposeView, dir: Option<Seq<char>>, rename: bool)
    requires
        file.other.contains_key("name"@),
    ensures
        arranged(file, dir, rename).other == file.other,
{
}

/// Renaming takes the first service off the front; `app` comes last, unless there was one, which
/// keeps its place. The others keep their order, and there are no further services.
pub proof fn law_renaming_keeps_order(file: ComposeView, dir: Option<Seq<char>>, service: Seq<char>)
    requires
        file.names.len() > 0,
        file.names.no_duplicates(),
        file.names[0] != "app"@,
    ensures
        !file.names.contains("app"@) ==> arranged(file, dir, true).names == file.names.subrange(
            1,
            file.names.len() as int,
        ).push("app"@),
        file.names.contains("app"@) ==> arranged(file, dir, true).names == file.names.subrange(
            1,
            file.names.len() as int,
        ),
        arranged(file, dir, true).services.contains_key(service) <==> service == "app"@ || (
        file.services.contains_key(service) && service != file.names[0]),
{
    let names = file.names;
    let rest = names.subrange(1, names.len() as int);
    formats::law_without_leaves_out_one(names, 0);
    assert(names.subrange(0, 0) + rest =~= rest);
    if names.contains("app"@) {
        let i = names.index_of("app"@);
        assert(rest[i - 1] == "app"@);
    }
    if rest.contains("app"@) {
        let i = rest.index_of("app"@);
        assert(names[i + 1] == "app"@);
    }
}

/// A first service that is called `app` is not renamed.
pub proof fn law_app_is_not_renamed(file: ComposeView, dir: Option<Seq<char>>)
    requires
        file.names.len() > 0,
        file.names[0] == "app"@,
    ensures
        arranged(file, dir, true).names == file.names,
        arranged(file, dir, true).services == file.services,
{
}

/// Each service is finished by its own reply: first its placeholders are replaced as confirmed, and
/// what comes of that gets its image qualified and its paths resolved.
pub proof fn law_each_service_is_finished(
    file: ComposeView,
    vars: Variables,
    replies: Seq<RepliesView>,
    site: SiteView,
    i: int,
)
    requires
        file.names.no_duplicates(),
        0 <= i < file.names.len(),
    ensures
        finished(file, vars, replies, site).services.contains_key(file.names[i]),
        finished(file, vars, replies, site).services[file.names[i]] == service::prepared(
            substitution::substituted(
                file.services[file.names[i]],
                vars,
                replies[i].confirmed,
            ),
            replies[i].qualified,
            site,
        ),
{
    assert(file.names.contains(file.names[i]));
    assert(file.names.index_of(file.names[i]) == i);
}

/// A volume whose host path holds a confirmed placeholder is mounted from the path that the value
/// makes of it, beside the compose file.
pub proof fn law_volume_is_filled_and_resolved(
    pre: Seq<char>,
    name: Seq<char>,
    post: Seq<char>,
    rest: Seq<char>,
    vars: Variables,
    qualified: Option<Seq<char>>,
    site: SiteView,
)
    requires
        crate::env::is_variable_name(name),
        vars.contains_key(name),
        !pre.contains('$'),
        !post.contains('$'),
        !rest.contains('$'),
        !(pre + vars[name] + post).contains(':'),
        (pre + vars[name] + post).contains('/'),
    ensures
        ({
            let volume = |s: Seq<char>|
                TreeView::Mapping(
                    seq![
                        (
                            TreeView::Text("volumes"@),
                            TreeView::Sequence(seq![TreeView::Text(s)]),
                        ),
                    ],
                );
            finished_service(
                volume(pre + "${"@ + name + "}"@ + post + ":"@ + rest),
                vars,
                RepliesView { confirmed: seq![true], qualified },
                site,
            ) == volume(service::resolved(pre + vars[name] + post, site) + ":"@ + rest)
        }),
{
    reveal_strlit(":");
    let tail = post + ":"@ + rest;
    assert(!tail.contains('$')) by {
        assert forall|i: int| 0 <= i < tail.len() implies tail[i] != '$' by {
            if i < post.len() {
                assert(post.contains(post[i]));
            } else if i > post.len() {
                assert(tail[i] == rest[i - post.len() - 1]);
                assert(rest.contains(rest[i - post.len() - 1]));
            }
        }
    }
    let host = pre + vars[name] + post;
    let given = pre + "${"@ + name + "}"@ + post + ":"@ + rest;
    assert(given =~= pre + "${"@ + name + "}"@ + tail);
    assert(pre + vars[name] + tail =~= host + ":"@ + rest);
    let key = TreeView::Text("volumes"@);
    let leaf = TreeView::Text(given);
    let done = TreeView::Text(host + ":"@ + rest);
    let answers = seq![true];
    substitution::law_text_is_filled(pre, name, tail, vars, true);
    let none = Seq::<TreeView>::empty();
    let nothing = Seq::<(TreeView, TreeView)>::empty();
    let no_answers = Seq::<bool>::empty();
    let list = TreeView::Sequence(seq![leaf]);
    substitution::law_items_go_by_their_answers(none, none, leaf, vars, no_answers, no_answers);
    substitution::law_items_go_by_their_answers(none, seq![leaf], leaf, vars, no_answers, answers);
    substitution::law_values_go_by_their_answers(
        nothing,
        nothing,
        key,
        list,
        vars,
        no_answers,
        no_answers,
    );
    substitution::law_values_go_by_their_answers(
        nothing,
        seq![(key, list)],
        key,
        list,
        vars,
        no_answers,
        answers,
    );
    let filled = seq![(key, TreeView::Sequence(seq![done]))];
    service::law_each_setting_is_prepared(filled, qualified, site, 0);
    service::law_each_volume_is_resolved(
        seq![done],
        0,
        rest,
        done,
        TreeView::Null,
        site,
    );
    service::law_volumes_are_resolved(host, rest, rest, TreeView::Null, site);
    reveal_strlit("volumes");
    reveal_strlit("env_file");
    assert("volumes"@.len() != "env_file"@.len());
    let resolved = TreeView::Text(service::resolved(host, site) + ":"@ + rest);
    let after = service::prepared(TreeView::Mapping(filled), qualified, site)->Mapping_0;
    assert(after[0].1->Sequence_0 =~= seq![resolved]);
    assert(after =~= seq![(key, TreeView::Sequence(seq![resolved]))]);
}

/// The question about renaming names the service and the name that it would get.
pub proof fn law_renaming_is_asked_for(name: Seq<char>)
    ensures
        rename_question_text(name) == "Do you want to rename service '"@ + name + "' to 'app'?"@,
{
}

/// A first service that is called `app` names its file where the directory has no name.
pub proof fn law_app_names_file_in_nameless_directory(
    file: ComposeView,
    dir: Seq<char>,
    rename: bool,
)
    requires
        file.names.len() > 0,
        file.names[0] == "app"@,
        !file.other.contains_key("name"@),
        paths::name_of(dir) is None,
    ensures
        arranged(file, Some(dir), rename).other["name"@] == TreeView::Text("app"@),
{
}

} // verus!
