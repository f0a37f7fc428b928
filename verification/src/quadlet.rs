//! Quadlet units: reading what podlet prints, qualifying image names, tuning the units.
use crate::formats::{self, Duplicate, Ini, IniFiles, Section};
use crate::documents::{self, read_json};
use crate::outside::{self, ini_from_str, outline_json, JsonOutline, JsonOutlineView};
use crate::paths::{self, join_path, normalize_path};
use crate::text::{self, add_all, contains, ends_with, same, split, split_once, starts_with, trim};
use vstd::prelude::*;
#[allow(unused_imports)]
use crate::formats::{FilesView, IniView};

verus! {

/// What stands between two units.
pub const QUADLET_DELIMITER: &'static str = "\n---\n\n";

/// The file name in the first line of a block, and the text of the unit below it. A block without
/// a comment in its first line, or without a second line, gives none.
pub open spec fn block_of(block: Seq<char>) -> Option<(Seq<char>, Seq<char>)> {
    match text::cut(block, "\n"@) {
        Some((first, rest)) if text::begins(first, "# "@) => Some(
            (text::trimmed(first.skip(2)), rest),
        ),
        _ => None,
    }
}

/// The named units in a list of blocks.
pub open spec fn named_blocks(blocks: Seq<Seq<char>>) -> Seq<(Seq<char>, Seq<char>)>
    decreases blocks.len(),
{
    if blocks.len() == 0 {
        Seq::empty()
    } else {
        match block_of(blocks.last()) {
            Some(named) => named_blocks(blocks.drop_last()).push(named),
            None => named_blocks(blocks.drop_last()),
        }
    }
}

/// The named units in podlet's output.
pub open spec fn raw_blocks(output: Seq<char>) -> Seq<(Seq<char>, Seq<char>)> {
    named_blocks(text::pieces(output, QUADLET_DELIMITER@))
}

/// The files made of named units, of which the last one under a name counts. None if one of them
/// cannot be read.
pub open spec fn units_of(named: Seq<(Seq<char>, Seq<char>)>) -> Option<FilesView>
    decreases named.len(),
{
    if named.len() == 0 {
        Some(Map::empty())
    } else {
        match (units_of(named.drop_last()), outside::ini_content(named.last().1)) {
            (Some(files), Some(ini)) => Some(files.insert(named.last().0, ini)),
            _ => None,
        }
    }
}

/// What a list of named texts says.
pub open spec fn named_views(list: Seq<(String, String)>) -> Seq<(Seq<char>, Seq<char>)> {
    list.map_values(|e: (String, String)| (e.0@, e.1@))
}

/// The named units in podlet's output.
pub fn quadlet_blocks(output: &str) -> (r: Vec<(String, String)>)
    ensures
        named_views(r@) == raw_blocks(output@),
{
    proof {
        reveal_strlit("\n---\n\n");
        reveal_strlit("# ");
    }
    let blocks = split(output, QUADLET_DELIMITER);
    let ghost all = text::views(blocks@);
    let mut r: Vec<(String, String)> = Vec::new();
    let mut i: usize = 0;
    assert(named_views(r@) =~= named_blocks(all.take(0)));
    while i < blocks.len()
        invariant
            i <= blocks@.len(),
            all == text::views(blocks@),
            "# "@.len() == 2,
            named_views(r@) == named_blocks(all.take(i as int)),
        decreases blocks@.len() - i,
    {
        let ghost before = named_views(r@);
        proof {
            assert(all.take(i + 1).drop_last() =~= all.take(i as int));
            assert(all.take(i + 1).last() == blocks@[i as int]@);
        }
        if let Some((first, rest)) = split_once(blocks[i], "\n") {
            if starts_with(first, "# ") {
                let n: usize = first.unicode_len();
                let name = trim(first.substring_char(2, n));
                assert(first@.subrange(2, n as int) =~= first@.skip(2));
                r.push((name.to_owned(), rest.to_owned()));
                assert(named_views(r@) =~= before.push((name@, rest@)));
            }
        }
        i += 1;
    }
    assert(all.take(all.len() as int) =~= all);
    r
}

/// A section with the given lines; the last value of a key counts.
fn section_with(pairs: &Vec<(String, String)>) -> (r: Section)
    ensures
        r@ == outside::pairs_map(pairs@),
{
    let mut r = Section::new();
    let mut i: usize = 0;
    assert(r@ =~= outside::pairs_map(pairs@.take(0)));
    while i < pairs.len()
        invariant
            i <= pairs@.len(),
            r@ == outside::pairs_map(pairs@.take(i as int)),
        decreases pairs@.len() - i,
    {
        proof {
            assert(pairs@.take(i + 1).drop_last() =~= pairs@.take(i as int));
        }
        r.put(pairs[i].0.as_str(), pairs[i].1.as_str());
        i += 1;
    }
    assert(pairs@.take(pairs@.len() as int) =~= pairs@);
    r
}

/// The document with the given sections; the last one under a name counts.
pub fn ini_with(sections: &Vec<(String, Vec<(String, String)>)>) -> (r: Ini)
    ensures
        r@ == outside::sections_map(sections@),
{
    let mut r = Ini::new();
    let mut i: usize = 0;
    assert(r@ =~= outside::sections_map(sections@.take(0)));
    while i < sections.len()
        invariant
            i <= sections@.len(),
            r@ == outside::sections_map(sections@.take(i as int)),
        decreases sections@.len() - i,
    {
        proof {
            assert(sections@.take(i + 1).drop_last() =~= sections@.take(i as int));
        }
        r.insert(sections[i].0.clone(), section_with(&sections[i].1));
        i += 1;
    }
    assert(sections@.take(sections@.len() as int) =~= sections@);
    r
}

/// Reads podlet's output. The error is that of the first unit that cannot be read.
pub fn parse_raw_quadlets(output: &str) -> (r: Result<IniFiles, serde_ini::de::Error>)
    ensures
        match r {
            Ok(files) => units_of(raw_blocks(output@)) == Some(files@),
            Err(_) => units_of(raw_blocks(output@)) is None,
        },
{
    let named = quadlet_blocks(output);
    let ghost all = raw_blocks(output@);
    let mut files = IniFiles::new();
    let mut i: usize = 0;
    assert(units_of(all.take(0)) == Some(FilesView::empty()));
    while i < named.len()
        invariant
            i <= named@.len() == all.len(),
            all == named_views(named@),
            all == raw_blocks(output@),
            units_of(all.take(i as int)) == Some(files@),
        decreases named@.len() - i,
    {
        proof {
            assert(all.take(i + 1).drop_last() =~= all.take(i as int));
            assert(all.take(i + 1).last() == (named@[i as int].0@, named@[i as int].1@));
        }
        match ini_from_str(named[i].1.as_str()) {
            Ok(sections) => {
                files.insert(named[i].0.clone(), ini_with(&sections));
            },
            Err(e) => {
                proof {
                    lemma_unreadable(all, i as int);
                }
                return Err(e);
            },
        }
        i += 1;
    }
    assert(all.take(all.len() as int) =~= all);
    Ok(files)
}

/// Why podlet gave no units.
#[derive(Debug)]
pub enum PodletError {
    /// It failed, and this says how.
    Failed(String),
    /// Its output cannot be read.
    Unreadable(serde_ini::de::Error),
}

/// What came of podlet's run: the units in its output, or a failure with what it said.
pub fn podlet_outcome(success: bool, stdout: &str, stderr: &str) -> (r: Result<
    IniFiles,
    PodletError,
>)
    ensures
        match r {
            Ok(files) => success && units_of(raw_blocks(stdout@)) == Some(files@),
            Err(PodletError::Failed(message)) => !success && message@
                == "podlet conversion failed: "@ + stderr@,
            Err(PodletError::Unreadable(_)) => success && units_of(raw_blocks(stdout@)) is None,
        },
{
    if !success {
        return Err(PodletError::Failed("podlet conversion failed: ".to_owned().concat(stderr)));
    }
    match parse_raw_quadlets(stdout) {
        Ok(files) => Ok(files),
        Err(e) => Err(PodletError::Unreadable(e)),
    }
}

/// One unit that cannot be read spoils all of them.
proof fn lemma_unreadable(named: Seq<(Seq<char>, Seq<char>)>, i: int)
    requires
        0 <= i < named.len(),
        outside::ini_content(named[i].1) is None,
    ensures
        units_of(named) is None,
    decreases named.len(),
{
    if i < named.len() - 1 {
        lemma_unreadable(named.drop_last(), i);
    }
}

/// Why no qualified name was found.
#[derive(Debug)]
pub enum NameError {
    /// The output is not JSON.
    NotJson(serde_json::Error),
    /// There is no reference in it.
    NoRef,
    /// The reference, given here, has no digest.
    NoDigest(String),
}

impl NameError {
    /// The message for the user.
    pub fn message(&self) -> (r: String)
        ensures
            r@ == "Could not parse qualified image name"@,
    {
        "Could not parse qualified image name".to_owned()
    }
}

/// The text of the first member called `name`, if it is a text.
pub open spec fn member_text(
    members: Seq<(Seq<char>, Option<Seq<char>>)>,
    name: Seq<char>,
) -> Option<Seq<char>>
    decreases members.len(),
{
    if members.len() == 0 {
        None
    } else if members[0].0 == name {
        members[0].1
    } else {
        member_text(members.skip(1), name)
    }
}

/// The reference that a manifest gives for an image: `Ref` of its first element.
pub open spec fn reference_in(outline: JsonOutlineView) -> Option<Seq<char>> {
    match outline {
        Some(elements) if elements.len() > 0 => match elements[0] {
            Some(members) => member_text(members, "Ref"@),
            None => None,
        },
        _ => None,
    }
}

/// The name in a reference: what stands before the digest.
pub open spec fn name_in(reference: Seq<char>) -> Option<Seq<char>> {
    match text::cut(reference, "@"@) {
        Some((name, _)) => Some(name),
        None => None,
    }
}

/// The result states the name in a manifest, or rightly that there is none.
pub open spec fn is_name_of(r: Result<String, NameError>, outline: JsonOutlineView) -> bool {
    match r {
        Ok(name) => reference_in(outline) matches Some(reference) && name_in(reference) == Some(
            name@,
        ),
        Err(NameError::NoRef) => reference_in(outline) is None,
        Err(NameError::NoDigest(reference)) => reference_in(outline) == Some(reference@) && name_in(
            reference@,
        ) is None,
        Err(NameError::NotJson(_)) => false,
    }
}

/// The text of the first member called `name`, if it is a text.
fn find_member<'a>(members: &'a Vec<(String, Option<String>)>, name: &str) -> (r: Option<
    &'a String,
>)
    ensures
        match r {
            Some(found) => member_text(outside::members_view(members@), name@) == Some(found@),
            None => member_text(outside::members_view(members@), name@) is None,
        },
{
    let ghost all = outside::members_view(members@);
    let mut i: usize = 0;
    assert(all.skip(0) =~= all);
    while i < members.len()
        invariant
            i <= members@.len() == all.len(),
            all == outside::members_view(members@),
            member_text(all, name@) == member_text(all.skip(i as int), name@),
        decreases members@.len() - i,
    {
        proof {
            assert(all.skip(i as int)[0] == outside::member_view(members@[i as int]));
            assert(all.skip(i as int).skip(1) =~= all.skip(i + 1));
        }
        if same(members[i].0.as_str(), name) {
            return members[i].1.as_ref();
        }
        i += 1;
    }
    None
}

/// The name in a manifest.
pub fn qualified_name_in(outline: &JsonOutline) -> (r: Result<String, NameError>)
    ensures
        is_name_of(r, outside::outline_view(*outline)),
{
    let reference = match outline {
        Some(elements) if elements.len() > 0 => match &elements[0] {
            Some(members) => find_member(members, "Ref"),
            None => None,
        },
        _ => None,
    };
    match reference {
        Some(full) => match split_once(full.as_str(), "@") {
            Some((name, _)) => Ok(name.to_owned()),
            None => Err(NameError::NoDigest(full.clone())),
        },
        None => Err(NameError::NoRef),
    }
}

/// The qualified name in the output of `docker manifest inspect --verbose`.
pub fn parse_qualified_name(output: &[u8]) -> (r: Result<String, NameError>)
    ensures
        match documents::json_document(output@) {
            Some(manifest) => is_name_of(r, outside::json_outline(manifest)),
            None => r matches Err(NameError::NotJson(_)),
        },
{
    match read_json(output) {
        Ok(manifest) => qualified_name_in(&outline_json(&manifest)),
        Err(e) => Err(NameError::NotJson(e)),
    }
}

/// What a container waits for.
pub const START_TARGETS: &'static str =
    "local-fs.target network-online.target systemd-networkd-wait-online.service";

/// The question whether to start a pod by default.
pub open spec fn wanted_by_question(unit: Seq<char>) -> Seq<char> {
    "Add WantedBy=default.target to '"@ + unit + "'?"@
}

/// The question whether to let a container wait for file systems and network.
pub open spec fn after_question(unit: Seq<char>) -> Seq<char> {
    "Add After="@ + START_TARGETS@ + " to '"@ + unit + "'?"@
}

/// The question whether to hand an environment file to a container.
pub open spec fn env_file_question(path: Seq<char>, unit: Seq<char>) -> Seq<char> {
    "Add EnvironmentFile="@ + path + " to '"@ + unit + "'?"@
}

/// The question whether to start a container again whenever it ends.
pub open spec fn restart_question(unit: Seq<char>) -> Seq<char> {
    "Add Restart=always to '"@ + unit + "'?"@
}

/// The question whether to update a container by itself.
pub open spec fn auto_update_question(policy: Seq<char>, unit: Seq<char>) -> Seq<char> {
    "Add AutoUpdate="@ + policy + " to '"@ + unit + "'?"@
}

/// Where a container's image is updated from: the registry if the image name holds a dot, as one
/// with a host name does.
pub open spec fn update_policy(unit: IniView) -> Seq<char> {
    let container = formats::section_of(unit, "Container"@);
    if container.contains_key("Image"@) && text::holds(container["Image"@], "."@) {
        "registry"@
    } else {
        "local"@
    }
}

/// The unit names no restart policy.
pub open spec fn lacks_restart(unit: IniView) -> bool {
    !formats::section_of(unit, "Service"@).contains_key("Restart"@)
}

/// A unit that describes a pod.
pub open spec fn is_pod(name: Seq<char>) -> bool {
    text::ends(name, ".pod"@)
}

/// A unit that describes a container.
pub open spec fn is_container(name: Seq<char>) -> bool {
    !is_pod(name) && text::ends(name, ".container"@)
}

/// The questions about a unit, in order. `env_path` is the environment file, where there is one.
pub open spec fn unit_questions(
    name: Seq<char>,
    unit: IniView,
    env_path: Option<Seq<char>>,
) -> Seq<Seq<char>> {
    if is_pod(name) {
        seq![wanted_by_question(name)]
    } else if is_container(name) {
        let env_file = match env_path {
            Some(path) => seq![env_file_question(path, name)],
            None => Seq::empty(),
        };
        let restart = if lacks_restart(unit) {
            seq![restart_question(name)]
        } else {
            Seq::empty()
        };
        seq![after_question(name)] + env_file + restart + seq![
            auto_update_question(update_policy(unit), name),
        ]
    } else {
        Seq::empty()
    }
}

/// The unit with `key=value` in `section` if that is wanted, and with the section in any case.
pub open spec fn with_setting(
    unit: IniView,
    section: Seq<char>,
    key: Seq<char>,
    value: Seq<char>,
    wanted: bool,
) -> IniView {
    if wanted {
        formats::with_entry(unit, section, key, value)
    } else {
        formats::with_section(unit, section)
    }
}

/// Which answer is about the restart policy: it comes behind the one about the environment file.
pub open spec fn restart_place(env_path: Option<Seq<char>>) -> int {
    if env_path is Some {
        2
    } else {
        1
    }
}

/// A unit after its questions are answered.
pub open spec fn tuned(
    name: Seq<char>,
    unit: IniView,
    env_path: Option<Seq<char>>,
    answers: Seq<bool>,
) -> IniView {
    if is_pod(name) {
        if answers[0] {
            formats::with_entry(unit, "Install"@, "WantedBy"@, "default.target"@)
        } else {
            unit
        }
    } else if is_container(name) {
        let waiting = with_setting(unit, "Unit"@, "After"@, START_TARGETS@, answers[0]);
        let served = match env_path {
            Some(path) => with_setting(
                waiting,
                "Service"@,
                "EnvironmentFile"@,
                path,
                answers[1],
            ),
            None => formats::with_section(waiting, "Service"@),
        };
        let restarted = with_setting(
            served,
            "Service"@,
            "Restart"@,
            "always"@,
            lacks_restart(unit) && answers[restart_place(env_path)],
        );
        with_setting(restarted, "Container"@, "AutoUpdate"@, update_policy(unit), answers.last())
    } else {
        unit
    }
}

/// The questions about the files called `names`, in order.
pub open spec fn files_questions(
    names: Seq<Seq<char>>,
    files: FilesView,
    env_path: Option<Seq<char>>,
) -> Seq<Seq<char>>
    decreases names.len(),
{
    if names.len() == 0 {
        Seq::empty()
    } else {
        files_questions(names.drop_last(), files, env_path) + unit_questions(
            names.last(),
            files[names.last()],
            env_path,
        )
    }
}

/// The files called `names`, each tuned by its share of the answers.
pub open spec fn files_tuned(
    names: Seq<Seq<char>>,
    files: FilesView,
    env_path: Option<Seq<char>>,
    answers: Seq<bool>,
) -> FilesView
    decreases names.len(),
{
    if names.len() == 0 {
        Map::empty()
    } else {
        let n = files_questions(names.drop_last(), files, env_path).len() as int;
        files_tuned(names.drop_last(), files, env_path, answers.take(n)).insert(
            names.last(),
            tuned(names.last(), files[names.last()], env_path, answers.skip(n)),
        )
    }
}

/// The environment file beside a compose file.
pub open spec fn env_file_path(
    initial_dir: Option<Seq<char>>,
    current_dir: Seq<char>,
    env_file_exists: bool,
) -> Option<Seq<char>> {
    match initial_dir {
        Some(dir) if env_file_exists => Some(
            paths::normal(paths::located(None, paths::path_in(dir, ".env"@), current_dir)),
        ),
        _ => None,
    }
}

/// The environment file beside a compose file.
fn env_file_of(initial_dir: Option<&str>, current_dir: &str, env_file_exists: bool) -> (r: Option<
    String,
>)
    ensures
        text::string_view(r) == env_file_path(
            text::str_view(initial_dir),
            current_dir@,
            env_file_exists,
        ),
{
    match initial_dir {
        Some(dir) if env_file_exists => {
            Some(normalize_path(join_path(dir, ".env").as_str(), current_dir))
        },
        _ => None,
    }
}

/// Where a container's image is updated from.
fn policy_of(unit: &Ini) -> (r: &'static str)
    ensures
        r@ == update_policy(unit@),
{
    let container = unit.section("Container");
    match container.get("Image") {
        Some(image) if contains(image.as_str(), ".") => "registry",
        _ => "local",
    }
}

/// Whether a unit names no restart policy.
fn without_restart(unit: &Ini) -> (r: bool)
    ensures
        r == lacks_restart(unit@),
{
    !unit.section("Service").contains_key("Restart")
}

/// The questions about a unit, in order.
fn questions_about(name: &str, unit: &Ini, env_path: &Option<String>) -> (r: Vec<String>)
    ensures
        text::string_views(r@) == unit_questions(name@, unit@, text::string_view(*env_path)),
{
    let mut r: Vec<String> = Vec::new();
    if ends_with(name, ".pod") {
        r.push("Add WantedBy=default.target to '".to_owned().concat(name).concat("'?"));
    } else if ends_with(name, ".container") {
        r.push(
            "Add After=".to_owned().concat(START_TARGETS).concat(" to '").concat(name).concat("'?"),
        );
        if let Some(path) = env_path {
            r.push(
                "Add EnvironmentFile=".to_owned().concat(path.as_str()).concat(" to '").concat(
                    name,
                ).concat("'?"),
            );
        }
        if without_restart(unit) {
            r.push("Add Restart=always to '".to_owned().concat(name).concat("'?"));
        }
        r.push(
            "Add AutoUpdate=".to_owned().concat(policy_of(unit)).concat(" to '").concat(
                name,
            ).concat("'?"),
        );
    }
    assert(text::string_views(r@) =~= unit_questions(name@, unit@, text::string_view(*env_path)));
    r
}

/// Puts `key=value` into `section` if that is wanted, and the section in any case.
fn set(unit: &mut Ini, section: &str, key: &str, value: &str, wanted: bool)
    ensures
        final(unit)@ == with_setting(old(unit)@, section@, key@, value@, wanted),
{
    if wanted {
        unit.put(section, key, value);
    } else {
        unit.ensure_section(section);
    }
}

/// The unit after its questions are answered. The answers start at `from`; where they end comes
/// back too.
fn tune(
    name: &str,
    unit: &Ini,
    env_path: &Option<String>,
    answers: &Vec<bool>,
    from: usize,
) -> (r: (Ini, usize))
    requires
        from + unit_questions(name@, unit@, text::string_view(*env_path)).len() <= answers@.len(),
    ensures
        r.1 == from + unit_questions(name@, unit@, text::string_view(*env_path)).len(),
        r.0@ == tuned(
            name@,
            unit@,
            text::string_view(*env_path),
            answers@.subrange(from as int, r.1 as int),
        ),
{
    let limit: usize = answers.len();
    let mut done = unit.copy();
    let mut at: usize = from;
    if ends_with(name, ".pod") {
        if answers[at] {
            done.put("Install", "WantedBy", "default.target");
        }
        at += 1;
    } else if ends_with(name, ".container") {
        set(&mut done, "Unit", "After", START_TARGETS, answers[at]);
        at += 1;
        if let Some(path) = env_path {
            set(&mut done, "Service", "EnvironmentFile", path.as_str(), answers[at]);
            at += 1;
        } else {
            done.ensure_section("Service");
        }
        let lacking = without_restart(unit);
        set(&mut done, "Service", "Restart", "always", lacking && answers[at]);
        if lacking {
            at += 1;
        }
        set(&mut done, "Container", "AutoUpdate", policy_of(unit), answers[at]);
        at += 1;
    }
    (done, at)
}

/// The questions about units, in order. Their default is yes. The environment file `.env` is
/// looked for in `initial_dir`; `env_file_exists` says whether it is there.
pub fn quadlet_questions(
    units: &IniFiles,
    initial_dir: Option<&str>,
    current_dir: &str,
    env_file_exists: bool,
) -> (r: Vec<String>)
    ensures
        text::string_views(r@) == files_questions(
            units.0.names(),
            units@,
            env_file_path(text::str_view(initial_dir), current_dir@, env_file_exists),
        ),
{
    let env_path = env_file_of(initial_dir, current_dir, env_file_exists);
    let ghost names = units.0.names();
    let total: usize = units.0.len();
    let mut r: Vec<String> = Vec::new();
    let mut i: usize = 0;
    assert(text::string_views(r@) =~= files_questions(names.take(0), units@, text::string_view(env_path)));
    while i < total
        invariant
            i <= total == names.len(),
            names == units.0.names(),
            text::string_views(r@) == files_questions(
                names.take(i as int),
                units@,
                text::string_view(env_path),
            ),
        decreases total - i,
    {
        proof {
            assert(names.take(i + 1).drop_last() =~= names.take(i as int));
            assert(names.take(i + 1).last() == names[i as int]);
        }
        let more = questions_about(
            units.0.name_at(i).as_str(),
            units.0.value_at(i),
            &env_path,
        );
        add_all(&mut r, more);
        i += 1;
    }
    assert(names.take(names.len() as int) =~= names);
    r
}

/// The first files raise no more questions than all of them.
proof fn lemma_files_prefix(
    names: Seq<Seq<char>>,
    k: int,
    files: FilesView,
    env_path: Option<Seq<char>>,
)
    requires
        0 <= k <= names.len(),
    ensures
        files_questions(names.take(k), files, env_path).len() <= files_questions(
            names,
            files,
            env_path,
        ).len(),
    decreases names.len(),
{
    if k == names.len() {
        assert(names.take(k) =~= names);
    } else {
        lemma_files_prefix(names.drop_last(), k, files, env_path);
        assert(names.drop_last().take(k) =~= names.take(k));
    }
}

/// Tunes units as the answers to their questions say: pods are started by default; containers
/// wait for file systems and network, get the environment file beside the compose file, are
/// started again whenever they end if they name no restart policy, and are updated by themselves.
pub fn process_quadlets(
    units: IniFiles,
    initial_dir: Option<&str>,
    current_dir: &str,
    env_file_exists: bool,
    answers: &Vec<bool>,
) -> (r: IniFiles)
    requires
        answers@.len() == files_questions(
            units.0.names(),
            units@,
            env_file_path(text::str_view(initial_dir), current_dir@, env_file_exists),
        ).len(),
    ensures
        r@ == files_tuned(
            units.0.names(),
            units@,
            env_file_path(text::str_view(initial_dir), current_dir@, env_file_exists),
            answers@,
        ),
        r.0.names() == units.0.names(),
{
    let env_path = env_file_of(initial_dir, current_dir, env_file_exists);
    let ghost path = text::string_view(env_path);
    let ghost names = units.0.names();
    let total: usize = units.0.len();
    let limit: usize = answers.len();
    let mut r = IniFiles::new();
    let mut at: usize = 0;
    let mut i: usize = 0;
    assert(names.take(0) =~= r.0.names());
    assert(r@ =~= files_tuned(names.take(0), units@, path, answers@.take(0)));
    while i < total
        invariant
            i <= total == names.len(),
            names == units.0.names(),
            names.no_duplicates(),
            path == text::string_view(env_path),
            limit == answers@.len() == files_questions(names, units@, path).len(),
            at == files_questions(names.take(i as int), units@, path).len(),
            r@ == files_tuned(names.take(i as int), units@, path, answers@.take(at as int)),
            r.0.names() == names.take(i as int),
            r.0.is_whole(),
        decreases total - i,
    {
        let ghost name = names[i as int];
        proof {
            assert(names.take(i + 1).drop_last() =~= names.take(i as int));
            assert(names.take(i + 1).last() == name);
            lemma_files_prefix(names, i + 1, units@, path);
            if names.take(i as int).contains(name) {
                let j = names.take(i as int).index_of(name);
                assert(names[j] == name);
            }
        }
        let (unit, next) = tune(
            units.0.name_at(i).as_str(),
            units.0.value_at(i),
            &env_path,
            answers,
            at,
        );
        r.0.insert(units.0.name_at(i).clone(), unit);
        proof {
            let given = answers@.take(next as int);
            assert(given.take(at as int) =~= answers@.take(at as int));
            assert(given.skip(at as int) =~= answers@.subrange(at as int, next as int));
            assert(names.take(i + 1) =~= names.take(i as int).push(name));
        }
        at = next;
        i += 1;
    }
    assert(names.take(names.len() as int) =~= names);
    assert(answers@.take(answers@.len() as int) =~= answers@);
    r
}

/// Where the answers about the file at `k` start.
pub open spec fn answers_start(
    names: Seq<Seq<char>>,
    files: FilesView,
    env_path: Option<Seq<char>>,
    k: int,
) -> int {
    files_questions(names.take(k), files, env_path).len() as int
}

/// Tuning keeps the set of files, and each of them is tuned by its own share of the answers.
pub proof fn law_each_file_has_its_answers(
    names: Seq<Seq<char>>,
    files: FilesView,
    env_path: Option<Seq<char>>,
    answers: Seq<bool>,
    k: int,
)
    requires
        names.no_duplicates(),
        answers.len() == files_questions(names, files, env_path).len(),
        0 <= k < names.len(),
    ensures
        files_tuned(names, files, env_path, answers).dom() == names.to_set(),
        files_tuned(names, files, env_path, answers)[names[k]] == tuned(
            names[k],
            files[names[k]],
            env_path,
            answers.subrange(
                answers_start(names, files, env_path, k),
                answers_start(names, files, env_path, k + 1),
            ),
        ),
    decreases names.len(),
{
    let init = names.drop_last();
    let n = files_questions(init, files, env_path).len() as int;
    lemma_tuned_names(names, files, env_path, answers);
    assert(names.take(names.len() as int) =~= names);
    assert(names.take(names.len() - 1) =~= init);
    if k == names.len() - 1 {
        assert(answers.subrange(n, answers.len() as int) =~= answers.skip(n));
    } else {
        law_each_file_has_its_answers(init, files, env_path, answers.take(n), k);
        assert(init[k] == names[k]);
        assert(init.take(k) =~= names.take(k));
        assert(init.take(k + 1) =~= names.take(k + 1));
        lemma_files_prefix(init, k + 1, files, env_path);
        lemma_files_prefix(init.take(k + 1), k, files, env_path);
        assert(init.take(k + 1).take(k) =~= names.take(k));
        assert(answers.take(n).subrange(
            answers_start(names, files, env_path, k),
            answers_start(names, files, env_path, k + 1),
        ) =~= answers.subrange(
            answers_start(names, files, env_path, k),
            answers_start(names, files, env_path, k + 1),
        ));
    }
}

/// Tuning keeps the set of files.
proof fn lemma_tuned_names(
    names: Seq<Seq<char>>,
    files: FilesView,
    env_path: Option<Seq<char>>,
    answers: Seq<bool>,
)
    ensures
        files_tuned(names, files, env_path, answers).dom() == names.to_set(),
    decreases names.len(),
{
    if names.len() == 0 {
        assert(files_tuned(names, files, env_path, answers).dom() =~= names.to_set());
    } else {
        let init = names.drop_last();
        let n = files_questions(init, files, env_path).len() as int;
        lemma_tuned_names(init, files, env_path, answers.take(n));
        assert forall|name: Seq<char>| names.to_set().contains(name) == (init.to_set().contains(
            name,
        ) || name == names.last()) by {
            if names.contains(name) && name != names.last() {
                let i = names.index_of(name);
                assert(init[i] == name);
            }
            if init.contains(name) {
                let i = init.index_of(name);
                assert(names[i] == name);
            }
        }
        assert(files_tuned(names, files, env_path, answers).dom() =~= names.to_set());
    }
}

/// A setting that is wanted is there, and every other entry stays.
proof fn lemma_setting(
    unit: IniView,
    section: Seq<char>,
    key: Seq<char>,
    value: Seq<char>,
    wanted: bool,
    s: Seq<char>,
    k: Seq<char>,
)
    ensures
        s != section || k != key || !wanted ==> formats::section_of(
            with_setting(unit, section, key, value, wanted),
            s,
        ).contains_key(k) == formats::section_of(unit, s).contains_key(k),
        s != section || k != key || !wanted ==> formats::section_of(
            with_setting(unit, section, key, value, wanted),
            s,
        )[k] == formats::section_of(unit, s)[k],
        s == section && k == key && wanted ==> formats::section_of(
            with_setting(unit, section, key, value, wanted),
            s,
        ).contains_pair(k, value),
{
}

/// The entries that tuning can add or overwrite.
pub open spec fn is_tuning_entry(section: Seq<char>, key: Seq<char>) -> bool {
    ||| section == "Install"@ && key == "WantedBy"@
    ||| section == "Unit"@ && key == "After"@
    ||| section == "Service"@ && key == "EnvironmentFile"@
    ||| section == "Service"@ && key == "Restart"@
    ||| section == "Container"@ && key == "AutoUpdate"@
}

/// The four settings of a container, each wanted or not.
spec fn container_settings(
    unit: IniView,
    path: Seq<char>,
    after: bool,
    env_file: bool,
    restart: bool,
    update: bool,
) -> IniView {
    let waiting = with_setting(unit, "Unit"@, "After"@, START_TARGETS@, after);
    let served = with_setting(waiting, "Service"@, "EnvironmentFile"@, path, env_file);
    let restarted = with_setting(served, "Service"@, "Restart"@, "always"@, restart);
    with_setting(restarted, "Container"@, "AutoUpdate"@, update_policy(unit), update)
}

/// A tuned container is one with its four settings.
proof fn lemma_tuned_container(
    name: Seq<char>,
    unit: IniView,
    env_path: Option<Seq<char>>,
    answers: Seq<bool>,
) -> (path: Seq<char>)
    requires
        is_container(name),
    ensures
        env_path matches Some(p) ==> path == p,
        tuned(name, unit, env_path, answers) == container_settings(
            unit,
            path,
            answers[0],
            env_path is Some && answers[1],
            lacks_restart(unit) && answers[restart_place(env_path)],
            answers.last(),
        ),
{
    match env_path {
        Some(path) => path,
        None => Seq::empty(),
    }
}

/// What the four settings of a container make of one entry: each that is wanted is there, and
/// every other entry stays.
proof fn lemma_container_entry(
    unit: IniView,
    path: Seq<char>,
    after: bool,
    env_file: bool,
    restart: bool,
    update: bool,
    s: Seq<char>,
    k: Seq<char>,
)
    ensures
        ({
            let done = formats::section_of(
                container_settings(unit, path, after, env_file, restart, update),
                s,
            );
            let was = formats::section_of(unit, s);
            if s == "Unit"@ && k == "After"@ && after {
                done.contains_pair(k, START_TARGETS@)
            } else if s == "Service"@ && k == "EnvironmentFile"@ && env_file {
                done.contains_pair(k, path)
            } else if s == "Service"@ && k == "Restart"@ && restart {
                done.contains_pair(k, "always"@)
            } else if s == "Container"@ && k == "AutoUpdate"@ && update {
                done.contains_pair(k, update_policy(unit))
            } else {
                done.contains_key(k) == was.contains_key(k) && done[k] == was[k]
            }
        }),
{
    reveal_strlit("Unit");
    reveal_strlit("Service");
    reveal_strlit("Container");
    reveal_strlit("EnvironmentFile");
    reveal_strlit("Restart");
    assert("Unit"@.len() != "Service"@.len());
    assert("Unit"@.len() != "Container"@.len());
    assert("Service"@.len() != "Container"@.len());
    assert("EnvironmentFile"@.len() != "Restart"@.len());
    let waiting = with_setting(unit, "Unit"@, "After"@, START_TARGETS@, after);
    lemma_setting(unit, "Unit"@, "After"@, START_TARGETS@, after, s, k);
    let served = with_setting(waiting, "Service"@, "EnvironmentFile"@, path, env_file);
    lemma_setting(waiting, "Service"@, "EnvironmentFile"@, path, env_file, s, k);
    let restarted = with_setting(served, "Service"@, "Restart"@, "always"@, restart);
    lemma_setting(served, "Service"@, "Restart"@, "always"@, restart, s, k);
    lemma_setting(restarted, "Container"@, "AutoUpdate"@, update_policy(unit), update, s, k);
}

/// Tuning adds and changes nothing but its own five entries, and the restart policy only where
/// none is named.
pub proof fn law_tuning_keeps_other_entries(
    name: Seq<char>,
    unit: IniView,
    env_path: Option<Seq<char>>,
    answers: Seq<bool>,
    section: Seq<char>,
    key: Seq<char>,
)
    requires
        !is_tuning_entry(section, key) || (section == "Service"@ && key == "Restart"@
            && !lacks_restart(unit)),
    ensures
        formats::section_of(tuned(name, unit, env_path, answers), section).contains_key(key)
            == formats::section_of(unit, section).contains_key(key),
        formats::section_of(tuned(name, unit, env_path, answers), section)[key]
            == formats::section_of(unit, section)[key],
{
    reveal_strlit("Unit");
    reveal_strlit("Service");
    reveal_strlit("Container");
    reveal_strlit("WantedBy");
    reveal_strlit("Restart");
    reveal_strlit("EnvironmentFile");
    assert("Service"@.len() != "Unit"@.len());
    assert("Service"@.len() != "Container"@.len());
    assert("WantedBy"@.len() != "Restart"@.len());
    assert("EnvironmentFile"@.len() != "Restart"@.len());
    if is_pod(name) {
        lemma_setting(unit, "Install"@, "WantedBy"@, "default.target"@, true, section, key);
    } else if is_container(name) {
        let path = lemma_tuned_container(name, unit, env_path, answers);
        lemma_container_entry(
            unit,
            path,
            answers[0],
            env_path is Some && answers[1],
            lacks_restart(unit) && answers[restart_place(env_path)],
            answers.last(),
            section,
            key,
        );
    }
}

/// Where every answer is no, tuning adds no entry and changes none.
pub proof fn law_refusal_adds_no_entry(
    name: Seq<char>,
    unit: IniView,
    env_path: Option<Seq<char>>,
    answers: Seq<bool>,
    section: Seq<char>,
)
    requires
        answers.len() == unit_questions(name, unit, env_path).len(),
        forall|i: int| 0 <= i < answers.len() ==> !#[trigger] answers[i],
    ensures
        formats::section_of(tuned(name, unit, env_path, answers), section) == formats::section_of(
            unit,
            section,
        ),
{
    if is_container(name) {
        assert(!answers[0]);
        assert(!answers[answers.len() - 1]);
        if env_path is Some {
            assert(!answers[1]);
        }
        if lacks_restart(unit) {
            assert(!answers[restart_place(env_path)]);
        }
    }
}

/// A unit that is neither a pod nor a container raises no question and stays as it is.
pub proof fn law_other_units_stay(
    name: Seq<char>,
    unit: IniView,
    env_path: Option<Seq<char>>,
    answers: Seq<bool>,
)
    requires
        !is_pod(name),
        !is_container(name),
    ensures
        unit_questions(name, unit, env_path).len() == 0,
        tuned(name, unit, env_path, answers) == unit,
{
}

/// Where every answer is yes, a pod is started by default, and a container waits for file systems
/// and network, gets the environment file, is started again whenever it ends unless it names
/// another policy, and is updated by itself.
pub proof fn law_acceptance_tunes(
    name: Seq<char>,
    unit: IniView,
    env_path: Option<Seq<char>>,
    answers: Seq<bool>,
)
    requires
        answers.len() == unit_questions(name, unit, env_path).len(),
        forall|i: int| 0 <= i < answers.len() ==> #[trigger] answers[i],
    ensures
        is_pod(name) ==> formats::section_of(
            tuned(name, unit, env_path, answers),
            "Install"@,
        ).contains_pair("WantedBy"@, "default.target"@),
        is_container(name) ==> formats::section_of(
            tuned(name, unit, env_path, answers),
            "Unit"@,
        ).contains_pair("After"@, START_TARGETS@),
        is_container(name) ==> formats::section_of(
            tuned(name, unit, env_path, answers),
            "Container"@,
        ).contains_pair("AutoUpdate"@, update_policy(unit)),
        is_container(name) && env_path is Some ==> formats::section_of(
            tuned(name, unit, env_path, answers),
            "Service"@,
        ).contains_pair("EnvironmentFile"@, env_path->Some_0),
        is_container(name) && !formats::section_of(unit, "Service"@).contains_key("Restart"@)
            ==> formats::section_of(
            tuned(name, unit, env_path, answers),
            "Service"@,
        ).contains_pair("Restart"@, "always"@),
{
    if is_pod(name) {
        assert(answers[0]);
        lemma_setting(
            unit,
            "Install"@,
            "WantedBy"@,
            "default.target"@,
            true,
            "Install"@,
            "WantedBy"@,
        );
    } else if is_container(name) {
        assert(answers[0] && answers[answers.len() - 1]);
        if env_path is Some {
            assert(answers[1]);
        }
        if lacks_restart(unit) {
            assert(answers[restart_place(env_path)]);
        }
        let path = lemma_tuned_container(name, unit, env_path, answers);
        let env_file = env_path is Some;
        let restart = lacks_restart(unit);
        reveal_strlit("Unit");
        reveal_strlit("Service");
        reveal_strlit("Container");
        reveal_strlit("EnvironmentFile");
        reveal_strlit("Restart");
        assert("Unit"@.len() != "Service"@.len());
        assert("Unit"@.len() != "Container"@.len());
        assert("Service"@.len() != "Container"@.len());
        assert("EnvironmentFile"@.len() != "Restart"@.len());
        lemma_container_entry(unit, path, true, env_file, restart, true, "Unit"@, "After"@);
        lemma_container_entry(
            unit,
            path,
            true,
            env_file,
            restart,
            true,
            "Container"@,
            "AutoUpdate"@,
        );
        lemma_container_entry(
            unit,
            path,
            true,
            env_file,
            restart,
            true,
            "Service"@,
            "EnvironmentFile"@,
        );
        lemma_container_entry(unit, path, true, env_file, restart, true, "Service"@, "Restart"@);
    }
}

/// A container is updated from the registry exactly if the name of its image holds a dot, and else
/// from local images; so is one that names no image.
pub proof fn law_images_with_dots_come_from_registry(unit: IniView, image: Seq<char>)
    ensures
        unit.contains_key("Container"@) && unit["Container"@].contains_pair("Image"@, image)
            ==> update_policy(unit) == (if image.contains('.') {
            "registry"@
        } else {
            "local"@
        }),
        !unit.contains_key("Container"@) || !unit["Container"@].contains_key("Image"@)
            ==> update_policy(unit) == "local"@,
{
    reveal_strlit(".");
    assert("."@[0] == '.');
    text::law_holds_characters(image, "."@);
}

/// What a unit describes is told by the end of its name.
pub proof fn law_units_are_told_by_their_ends(name: Seq<char>, stem: Seq<char>)
    ensures
        is_pod(stem + ".pod"@),
        is_container(stem + ".container"@),
        is_pod(name) ==> exists|start: Seq<char>| name == #[trigger] (start + ".pod"@),
        is_container(name) ==> exists|start: Seq<char>| name == #[trigger] (start + ".container"@),
        !(is_pod(name) && is_container(name)),
{
    reveal_strlit(".pod");
    reveal_strlit(".container");
    text::law_ends_of_a_text(name, ".pod"@, stem);
    text::law_ends_of_a_text(name, ".container"@, stem);
    let c = stem + ".container"@;
    let n = c.len();
    assert(c[n - 1] == 'r');
    if text::ends(c, ".pod"@) {
        assert(c.skip(n - 4)[3] == 'd');
    }
}

/// Of a pod one thing is asked: whether to start it by default.
pub proof fn law_pods_are_asked_about(
    stem: Seq<char>,
    unit: IniView,
    env_path: Option<Seq<char>>,
)
    ensures
        unit_questions(stem + ".pod"@, unit, env_path) == seq![
            "Add WantedBy=default.target to '"@ + (stem + ".pod"@) + "'?"@,
        ],
{
    law_units_are_told_by_their_ends(stem, stem);
}

/// Of a container it is asked whether to wait for file systems and network; with an environment
/// file, whether to hand it over; without a restart policy, whether to restart always; and last
/// whether to update by itself, from where the name of its image says.
pub proof fn law_containers_are_asked_about(
    stem: Seq<char>,
    unit: IniView,
    env_path: Option<Seq<char>>,
)
    ensures
        ({
            let name = stem + ".container"@;
            let restarts = unit.contains_key("Service"@) && unit["Service"@].contains_key(
                "Restart"@,
            );
            let asked = unit_questions(name, unit, env_path);
            let after =
                "Add After=local-fs.target network-online.target systemd-networkd-wait-online.service to '"@
                + name + "'?"@;
            let restart = "Add Restart=always to '"@ + name + "'?"@;
            let update = "Add AutoUpdate="@ + update_policy(unit) + " to '"@ + name + "'?"@;
            match env_path {
                Some(path) => {
                    let env_file = "Add EnvironmentFile="@ + path + " to '"@ + name + "'?"@;
                    &&& !restarts ==> asked == seq![after, env_file, restart, update]
                    &&& restarts ==> asked == seq![after, env_file, update]
                },
                None => {
                    &&& !restarts ==> asked == seq![after, restart, update]
                    &&& restarts ==> asked == seq![after, update]
                },
            }
        }),
{
    law_units_are_told_by_their_ends(stem, stem);
    let name = stem + ".container"@;
    let asked = unit_questions(name, unit, env_path);
    reveal_strlit("Add After=");
    reveal_strlit(" to '");
    reveal_strlit("local-fs.target network-online.target systemd-networkd-wait-online.service");
    reveal_strlit(
        "Add After=local-fs.target network-online.target systemd-networkd-wait-online.service to '",
    );
    let after =
        "Add After=local-fs.target network-online.target systemd-networkd-wait-online.service to '"@
        + name + "'?"@;
    assert("Add After="@ + START_TARGETS@ + " to '"@
        =~= "Add After=local-fs.target network-online.target systemd-networkd-wait-online.service to '"@);
    assert(after_question(name) == after);
    let restart = "Add Restart=always to '"@ + name + "'?"@;
    let update = "Add AutoUpdate="@ + update_policy(unit) + " to '"@ + name + "'?"@;
    match env_path {
        Some(path) => {
            let env_file = "Add EnvironmentFile="@ + path + " to '"@ + name + "'?"@;
            if lacks_restart(unit) {
                assert(asked =~= seq![after, env_file, restart, update]);
            } else {
                assert(asked =~= seq![after, env_file, update]);
            }
        },
        None => {
            if lacks_restart(unit) {
                assert(asked =~= seq![after, restart, update]);
            } else {
                assert(asked =~= seq![after, update]);
            }
        },
    }
}

/// A section with an entry, or with what was there, by an answer.
pub open spec fn is_answered(
    done: IniView,
    unit: IniView,
    section: Seq<char>,
    key: Seq<char>,
    value: Seq<char>,
    answer: bool,
) -> bool {
    if answer {
        done.contains_key(section) && done[section].contains_pair(key, value)
    } else {
        &&& formats::section_of(done, section).contains_key(key) == formats::section_of(
            unit,
            section,
        ).contains_key(key)
        &&& formats::section_of(done, section)[key] == formats::section_of(unit, section)[key]
    }
}

/// A pod is started by default exactly if its answer is yes.
pub proof fn law_pod_goes_by_its_answer(
    stem: Seq<char>,
    unit: IniView,
    env_path: Option<Seq<char>>,
    answer: bool,
)
    ensures
        answer ==> tuned(stem + ".pod"@, unit, env_path, seq![answer]).contains_key("Install"@)
            && tuned(stem + ".pod"@, unit, env_path, seq![answer])["Install"@].contains_pair(
            "WantedBy"@,
            "default.target"@,
        ),
        !answer ==> tuned(stem + ".pod"@, unit, env_path, seq![answer]) == unit,
{
    law_units_are_told_by_their_ends(stem, stem);
}

/// Each setting of a container goes by the answer to its own question: what is confirmed is set to
/// the value that was shown, and what is refused stays as it was.
pub proof fn law_container_goes_by_its_answers(
    stem: Seq<char>,
    unit: IniView,
    env_path: Option<Seq<char>>,
    after: bool,
    env_file: bool,
    restart: bool,
    update: bool,
)
    ensures
        ({
            let name = stem + ".container"@;
            let restarts = unit.contains_key("Service"@) && unit["Service"@].contains_key(
                "Restart"@,
            );
            let answers = seq![after] + (if env_path is Some {
                seq![env_file]
            } else {
                Seq::empty()
            }) + (if restarts {
                Seq::empty()
            } else {
                seq![restart]
            }) + seq![update];
            let done = tuned(name, unit, env_path, answers);
            &&& is_answered(
                done,
                unit,
                "Unit"@,
                "After"@,
                "local-fs.target network-online.target systemd-networkd-wait-online.service"@,
                after,
            )
            &&& env_path matches Some(path) ==> is_answered(
                done,
                unit,
                "Service"@,
                "EnvironmentFile"@,
                path,
                env_file,
            )
            &&& env_path is None ==> is_answered(
                done,
                unit,
                "Service"@,
                "EnvironmentFile"@,
                name,
                false,
            )
            &&& is_answered(
                done,
                unit,
                "Service"@,
                "Restart"@,
                "always"@,
                restart && !restarts,
            )
            &&& is_answered(
                done,
                unit,
                "Container"@,
                "AutoUpdate"@,
                update_policy(unit),
                update,
            )
        }),
{
    law_units_are_told_by_their_ends(stem, stem);
    let name = stem + ".container"@;
    let restarts = !lacks_restart(unit);
    let answers = seq![after] + (if env_path is Some {
        seq![env_file]
    } else {
        Seq::empty()
    }) + (if restarts {
        Seq::empty()
    } else {
        seq![restart]
    }) + seq![update];
    assert(answers[0] == after);
    assert(answers.last() == update);
    if env_path is Some {
        assert(answers[1] == env_file);
    }
    if !restarts {
        assert(answers[restart_place(env_path)] == restart);
    }
    let e = env_path is Some && env_file;
    let r = lacks_restart(unit) && restart;
    let path = lemma_tuned_container(name, unit, env_path, answers);
    reveal_strlit("Unit");
    reveal_strlit("Service");
    reveal_strlit("Container");
    reveal_strlit("EnvironmentFile");
    reveal_strlit("Restart");
    assert("Unit"@.len() != "Service"@.len());
    assert("Unit"@.len() != "Container"@.len());
    assert("Service"@.len() != "Container"@.len());
    assert("EnvironmentFile"@.len() != "Restart"@.len());
    lemma_container_entry(unit, path, after, e, r, update, "Unit"@, "After"@);
    lemma_container_entry(unit, path, after, e, r, update, "Service"@, "EnvironmentFile"@);
    lemma_container_entry(unit, path, after, e, r, update, "Service"@, "Restart"@);
    lemma_container_entry(unit, path, after, e, r, update, "Container"@, "AutoUpdate"@);
}

/// With the last answer yes, a container whose image name has no dot is updated from local images,
/// and one whose image name has a dot from the registry.
pub proof fn law_updates_come_from_where_the_image_does(
    stem: Seq<char>,
    unit: IniView,
    env_path: Option<Seq<char>>,
    answers: Seq<bool>,
    image: Seq<char>,
)
    requires
        answers.len() == unit_questions(stem + ".container"@, unit, env_path).len(),
        answers[answers.len() - 1],
        unit.contains_key("Container"@),
        unit["Container"@].contains_pair("Image"@, image),
    ensures
        tuned(stem + ".container"@, unit, env_path, answers)["Container"@].contains_pair(
            "AutoUpdate"@,
            if image.contains('.') {
                "registry"@
            } else {
                "local"@
            },
        ),
{
    law_units_are_told_by_their_ends(stem, stem);
    law_images_with_dots_come_from_registry(unit, image);
    let name = stem + ".container"@;
    let path = lemma_tuned_container(name, unit, env_path, answers);
    reveal_strlit("Unit");
    reveal_strlit("Service");
    reveal_strlit("Container");
    assert("Unit"@.len() != "Container"@.len());
    assert("Service"@.len() != "Container"@.len());
    lemma_container_entry(
        unit,
        path,
        answers[0],
        env_path is Some && answers[1],
        lacks_restart(unit) && answers[restart_place(env_path)],
        answers.last(),
        "Container"@,
        "AutoUpdate"@,
    );
}

/// The environment file is `.env` beside the compose file, by its normal path; there is none where
/// no directory is known or the file is not there.
pub proof fn law_env_file_lies_beside_compose_file(dir: Seq<char>, current_dir: Seq<char>)
    requires
        dir.len() > 0,
        dir[dir.len() - 1] != '/',
        current_dir.len() > 0,
        current_dir[current_dir.len() - 1] != '/',
    ensures
        env_file_path(None, current_dir, true) is None,
        env_file_path(Some(dir), current_dir, false) is None,
        dir[0] == '/' ==> env_file_path(Some(dir), current_dir, true) == Some(
            paths::normal(dir + "/"@ + ".env"@),
        ),
        dir[0] != '/' ==> env_file_path(Some(dir), current_dir, true) == Some(
            paths::normal(current_dir + "/"@ + (dir + "/"@ + ".env"@)),
        ),
{
    reveal_strlit(".env");
    paths::law_path_is_put_behind_directory(dir, ".env"@);
    paths::law_path_is_put_behind_directory(current_dir, dir + "/"@ + ".env"@);
}

/// The questions about files are those about each of them, one after the other.
pub proof fn law_files_are_asked_about_in_order(
    a: Seq<Seq<char>>,
    b: Seq<Seq<char>>,
    name: Seq<char>,
    files: FilesView,
    env_path: Option<Seq<char>>,
)
    ensures
        files_questions(seq![name], files, env_path) == unit_questions(
            name,
            files[name],
            env_path,
        ),
        files_questions(a + b, files, env_path) == files_questions(a, files, env_path)
            + files_questions(b, files, env_path),
    decreases b.len(),
{
    let none = Seq::<Seq<char>>::empty();
    assert(seq![name].drop_last() =~= none);
    assert(files_questions(none, files, env_path) =~= Seq::empty());
    assert(seq![name].last() == name);
    assert(files_questions(seq![name], files, env_path) =~= unit_questions(
        name,
        files[name],
        env_path,
    ));
    if b.len() == 0 {
        assert(a + b =~= a);
        assert(files_questions(a, files, env_path) + files_questions(b, files, env_path)
            =~= files_questions(a, files, env_path));
    } else {
        law_files_are_asked_about_in_order(a, b.drop_last(), name, files, env_path);
        assert((a + b).drop_last() =~= a + b.drop_last());
        assert((a + b).last() == b.last());
        assert(files_questions(a + b, files, env_path) =~= files_questions(a, files, env_path)
            + files_questions(b, files, env_path));
    }
}

/// A block whose first line is a comment is a unit: the comment names it, and the lines below are
/// its text. A block of one line, or with another first line, is none.
pub proof fn law_blocks_are_named_by_comments(
    line: Seq<char>,
    gap: Seq<char>,
    name: Seq<char>,
    end: Seq<char>,
    rest: Seq<char>,
)
    requires
        !line.contains('\n'),
        text::is_blank(gap),
        text::is_blank(end),
        text::is_tight(name),
        !(gap + name + end).contains('\n'),
    ensures
        block_of("# "@ + (gap + name + end) + "\n"@ + rest) == Some((name, rest)),
        block_of(line) is None,
        !(line.len() >= 2 && line[0] == '#' && line[1] == ' ') ==> block_of(line + "\n"@ + rest)
            is None,
{
    reveal_strlit("\n");
    reveal_strlit("# ");
    assert("\n"@[0] == '\n');
    let title = gap + name + end;
    let first = "# "@ + title;
    assert forall|i: int| 0 <= i < first.len() implies first[i] != '\n' by {
        if i >= 2 {
            assert(first[i] == title[i - 2]);
            assert(title.contains(title[i - 2]));
        }
    }
    text::law_cut_at_character(first, "\n"@, rest);
    text::law_ends_of_a_text(first, "# "@, title);
    assert(first.skip(2) =~= title);
    text::law_trimming_undoes_padding(gap, name, end);
    text::law_holds_characters(line, "\n"@);
    text::law_cut_takes_apart(line, "\n"@);
    text::law_cut_at_character(line, "\n"@, rest);
    if text::begins(line, "# "@) {
        assert(line.take(2)[0] == line[0] && line.take(2)[1] == line[1]);
    }
}

/// Named units are told block by block.
proof fn lemma_named_blocks_add(a: Seq<Seq<char>>, b: Seq<Seq<char>>)
    ensures
        named_blocks(a + b) == named_blocks(a) + named_blocks(b),
    decreases b.len(),
{
    if b.len() == 0 {
        assert(a + b =~= a);
        assert(named_blocks(a) + named_blocks(b) =~= named_blocks(a));
    } else {
        lemma_named_blocks_add(a, b.drop_last());
        assert((a + b).drop_last() =~= a + b.drop_last());
        assert((a + b).last() == b.last());
        assert(named_blocks(a + b) =~= named_blocks(a) + named_blocks(b));
    }
}

/// The units in podlet's output are those before a line of three dashes with a blank line behind
/// it, and then those that follow. Output without such a line is one block.
pub proof fn law_units_are_told_apart_by_dashes(a: Seq<char>, b: Seq<char>)
    ensures
        text::find(a + "\n---\n\n"@, "\n---\n\n"@) == Some(a.len() as int) ==> raw_blocks(
            a + "\n---\n\n"@ + b,
        ) == raw_blocks(a) + raw_blocks(b),
        !text::holds(a, "\n---\n\n"@) ==> raw_blocks(a) == (match block_of(a) {
            Some(named) => seq![named],
            None => Seq::empty(),
        }),
{
    reveal_strlit("\n---\n\n");
    let pat = QUADLET_DELIMITER@;
    assert(pat == "\n---\n\n"@);
    let none = Seq::<Seq<char>>::empty();
    assert(seq![a].drop_last() =~= none);
    assert(named_blocks(none) =~= Seq::empty());
    assert(seq![a].last() == a);
    match block_of(a) {
        Some(named) => {
            assert(named_blocks(seq![a]) =~= seq![named]);
        },
        None => {
            assert(named_blocks(seq![a]) =~= Seq::empty());
        },
    }
    if !text::holds(a, pat) {
        assert(text::pieces(a, pat) =~= seq![a]);
    }
    if text::find(a + pat, pat) == Some(a.len() as int) {
        text::lemma_pieces_head(a, pat, b);
        lemma_named_blocks_add(seq![a], text::pieces(b, pat));
        text::law_find_gives_first(a, pat);
        text::law_find_gives_first(a + pat, pat);
        if let Some(i) = text::find(a, pat) {
            assert((a + pat).subrange(i, i + pat.len()) =~= a.subrange(i, i + pat.len()));
        }
        assert(text::pieces(a, pat) =~= seq![a]);
    }
}

/// Units are read exactly if each of their texts is. They stand under their names, and the last one
/// under a name counts.
pub proof fn law_units_are_read(named: Seq<(Seq<char>, Seq<char>)>, k: int)
    requires
        0 <= k < named.len(),
    ensures
        units_of(named) is Some <==> forall|i: int|
            0 <= i < named.len() ==> outside::ini_content((#[trigger] named[i]).1) is Some,
        units_of(named) matches Some(files) ==> files.contains_key(named[k].0),
        units_of(named) matches Some(files) ==> forall|name: Seq<char>| #[trigger]
            files.contains_key(name) ==> exists|i: int|
                0 <= i < named.len() && (#[trigger] named[i]).0 == name,
        (forall|j: int| k < j < named.len() ==> (#[trigger] named[j]).0 != named[k].0) ==> (
        units_of(named) matches Some(files) ==> outside::ini_content(named[k].1) == Some(
            files[named[k].0],
        )),
    decreases named.len(),
{
    let init = named.drop_last();
    let last = named.len() - 1;
    assert(named[last] == named.last());
    if init.len() == 0 {
        assert(units_of(init) == Some(FilesView::empty()));
        if units_of(named) is Some {
            assert forall|name: Seq<char>| #[trigger]
                units_of(named)->Some_0.contains_key(name) implies exists|i: int|
                0 <= i < named.len() && (#[trigger] named[i]).0 == name by {
                assert(named[last].0 == name);
            }
        }
    } else {
        let m = if k < last {
            k
        } else {
            0
        };
        law_units_are_read(init, m);
        assert(init[m] == named[m]);
        assert forall|i: int| 0 <= i < init.len() implies init[i] == named[i] by {}
        if forall|i: int|
            0 <= i < named.len() ==> outside::ini_content((#[trigger] named[i]).1) is Some {
            assert forall|i: int| 0 <= i < init.len() implies outside::ini_content(
                (#[trigger] init[i]).1,
            ) is Some by {
                assert(outside::ini_content(named[i].1) is Some);
            }
        }
        if units_of(named) is Some {
            assert forall|i: int| 0 <= i < named.len() implies outside::ini_content(
                (#[trigger] named[i]).1,
            ) is Some by {
                if i < last {
                    assert(outside::ini_content(init[i].1) is Some);
                }
            }
            let files = units_of(named)->Some_0;
            let before = units_of(init)->Some_0;
            assert forall|name: Seq<char>| #[trigger] files.contains_key(name) implies exists|
                i: int,
            |
                0 <= i < named.len() && (#[trigger] named[i]).0 == name by {
                if name == named[last].0 {
                    assert(named[last].0 == name);
                } else {
                    assert(before.contains_key(name));
                    let i = choose|i: int| 0 <= i < init.len() && (#[trigger] init[i]).0 == name;
                    assert(named[i].0 == name);
                }
            }
            if k < last && (forall|j: int|
                k < j < named.len() ==> (#[trigger] named[j]).0 != named[k].0) {
                assert(named[last].0 != named[k].0);
                assert forall|j: int| k < j < init.len() implies (#[trigger] init[j]).0
                    != init[k].0 by {
                    assert(named[j].0 != named[k].0);
                }
            }
        }
    }
}

/// The qualified name of an image is what stands before the digest in the reference of the first
/// element of a manifest, under the first member called `Ref`.
pub proof fn law_reference_names_image(
    before: Seq<(Seq<char>, Option<Seq<char>>)>,
    name: Seq<char>,
    digest: Seq<char>,
    behind: Seq<(Seq<char>, Option<Seq<char>>)>,
    others: Seq<Option<Seq<(Seq<char>, Option<Seq<char>>)>>>,
)
    requires
        !name.contains('@'),
        forall|i: int| 0 <= i < before.len() ==> (#[trigger] before[i]).0 != "Ref"@,
    ensures
        reference_in(
            Some(
                seq![Some(before + seq![("Ref"@, Some(name + "@"@ + digest))] + behind)] + others,
            ),
        ) == Some(name + "@"@ + digest),
        reference_in(Some(seq![Some(before)] + others)) is None,
        reference_in(Some(seq![None] + others)) is None,
        reference_in(Some(Seq::empty())) is None,
        reference_in(None) is None,
        name_in(name + "@"@ + digest) == Some(name),
        name_in(name) is None,
{
    reveal_strlit("@");
    assert("@"@[0] == '@');
    text::law_cut_at_character(name, "@"@, digest);
    text::law_holds_characters(name, "@"@);
    text::law_cut_takes_apart(name, "@"@);
    let reference = Some(name + "@"@ + digest);
    lemma_member_behind(before, seq![("Ref"@, reference)] + behind);
    assert(before + (seq![("Ref"@, reference)] + behind) =~= before + seq![("Ref"@, reference)]
        + behind);
    assert((seq![("Ref"@, reference)] + behind)[0] == ("Ref"@, reference));
    lemma_member_behind(before, Seq::empty());
    assert(before + Seq::<(Seq<char>, Option<Seq<char>>)>::empty() =~= before);
    let full = Some(before + seq![("Ref"@, reference)] + behind);
    assert((seq![full] + others)[0] == full);
    assert((seq![Some(before)] + others)[0] == Some(before));
    let none = None::<Seq<(Seq<char>, Option<Seq<char>>)>>;
    assert((seq![none] + others)[0] == none);
}

/// Members of other names are passed over.
proof fn lemma_member_behind(
    before: Seq<(Seq<char>, Option<Seq<char>>)>,
    rest: Seq<(Seq<char>, Option<Seq<char>>)>,
)
    requires
        forall|i: int| 0 <= i < before.len() ==> (#[trigger] before[i]).0 != "Ref"@,
    ensures
        member_text(before + rest, "Ref"@) == member_text(rest, "Ref"@),
    decreases before.len(),
{
    let all = before + rest;
    if before.len() == 0 {
        assert(all =~= rest);
    } else {
        let tail = before.skip(1);
        assert(all[0] == before[0]);
        assert forall|i: int| 0 <= i < tail.len() implies (#[trigger] tail[i]).0 != "Ref"@ by {
            assert(tail[i] == before[i + 1]);
        }
        assert(all.skip(1) =~= tail + rest);
        lemma_member_behind(tail, rest);
    }
}

/// Tuning adds no sections but the three that its settings of a container stand in, and the one
/// that a confirmed pod is started by.
pub proof fn law_tuning_adds_few_sections(
    stem: Seq<char>,
    unit: IniView,
    env_path: Option<Seq<char>>,
    answers: Seq<bool>,
    section: Seq<char>,
)
    requires
        answers.len() > 0,
    ensures
        tuned(stem + ".container"@, unit, env_path, answers).contains_key(section)
            <==> unit.contains_key(section) || section == "Unit"@ || section == "Service"@
            || section == "Container"@,
        tuned(stem + ".pod"@, unit, env_path, answers).contains_key(section)
            <==> unit.contains_key(section) || (section == "Install"@ && answers[0]),
{
    law_units_are_told_by_their_ends(stem, stem);
}

/// The environment file is found by making the path of `.env` behind the directory normal.
pub proof fn law_env_file_is_located(dir: Seq<char>, current_dir: Seq<char>)
    ensures
        env_file_path(Some(dir), current_dir, true) == Some(
            paths::normal(paths::located(None, paths::path_in(dir, ".env"@), current_dir)),
        ),
{
}

/// A reference that is no text is none.
pub proof fn law_reference_is_a_text(
    before: Seq<(Seq<char>, Option<Seq<char>>)>,
    behind: Seq<(Seq<char>, Option<Seq<char>>)>,
    others: Seq<Option<Seq<(Seq<char>, Option<Seq<char>>)>>>,
)
    requires
        forall|i: int| 0 <= i < before.len() ==> (#[trigger] before[i]).0 != "Ref"@,
    ensures
        reference_in(
            Some(
                seq![Some(before + seq![("Ref"@, None::<Seq<char>>)] + behind)] + others,
            ),
        ) is None,
{
    let nothing = ("Ref"@, None::<Seq<char>>);
    lemma_member_behind(before, seq![nothing] + behind);
    assert(before + (seq![nothing] + behind) =~= before + seq![nothing] + behind);
    assert((seq![nothing] + behind)[0] == nothing);
    let full = Some(before + seq![nothing] + behind);
    assert((seq![full] + others)[0] == full);
}

} // verus!
