//! Activation of units: which commands are run, and what is asked before.
use crate::paths::{self, extension, file_name, file_stem, join_path, parent, same_path};
use crate::text::{self, contains, ends_with, same};
use crate::utils::{self, systemctl_cmd};
use vstd::prelude::*;

verus! {

/// The words of a command.
pub type Words = Seq<Seq<char>>;

/// What a list of commands says.
pub open spec fn commands_view(commands: Seq<Vec<String>>) -> Seq<Words> {
    commands.map_values(|c: Vec<String>| text::string_views(c@))
}

/// The command that verifies a unit file.
pub open spec fn verification_of(file: Seq<char>) -> Words {
    seq!["systemd-analyze"@, "verify"@, file]
}

/// The commands that verify the unit files that were written: one for each of them, in order.
pub fn verification_commands(files: &Vec<String>) -> (r: Vec<Vec<String>>)
    ensures
        commands_view(r@) == text::string_views(files@).map_values(
            |file: Seq<char>| verification_of(file),
        ),
{
    let mut r: Vec<Vec<String>> = Vec::new();
    let mut i: usize = 0;
    while i < files.len()
        invariant
            i <= files@.len(),
            r@.len() == i,
            forall|k: int|
                0 <= k < i ==> #[trigger] commands_view(r@)[k] == verification_of(files@[k]@),
        decreases files@.len() - i,
    {
        let ghost before = commands_view(r@);
        let mut command: Vec<String> = Vec::new();
        command.push("systemd-analyze".to_owned());
        command.push("verify".to_owned());
        command.push(files[i].clone());
        assert(text::string_views(command@) =~= verification_of(files@[i as int]@));
        r.push(command);
        assert(commands_view(r@) =~= before.push(verification_of(files@[i as int]@)));
        i += 1;
    }
    assert(commands_view(r@) =~= text::string_views(files@).map_values(
        |file: Seq<char>| verification_of(file),
    ));
    r
}

/// Those of `files` whose verification failed, in order.
pub open spec fn failed_of(files: Seq<Seq<char>>, passed: Seq<bool>) -> Seq<Seq<char>>
    decreases files.len(),
{
    if files.len() == 0 {
        Seq::empty()
    } else if passed[files.len() - 1] {
        failed_of(files.drop_last(), passed)
    } else {
        failed_of(files.drop_last(), passed).push(files.last())
    }
}

/// Those of `files` whose verification failed. Units are activated only if there are none.
pub fn failed_files(files: &Vec<String>, passed: &Vec<bool>) -> (r: Vec<String>)
    requires
        passed@.len() == files@.len(),
    ensures
        text::string_views(r@) == failed_of(text::string_views(files@), passed@),
{
    let ghost all = text::string_views(files@);
    let mut r: Vec<String> = Vec::new();
    let mut i: usize = 0;
    assert(text::string_views(r@) =~= failed_of(all.take(0), passed@));
    while i < files.len()
        invariant
            i <= files@.len() == passed@.len(),
            all == text::string_views(files@),
            text::string_views(r@) == failed_of(all.take(i as int), passed@),
        decreases files@.len() - i,
    {
        let ghost before = text::string_views(r@);
        proof {
            assert(all.take(i + 1).drop_last() =~= all.take(i as int));
            assert(all.take(i + 1).last() == files@[i as int]@);
        }
        if !passed[i] {
            r.push(files[i].clone());
            assert(text::string_views(r@) =~= before.push(files@[i as int]@));
        }
        i += 1;
    }
    assert(all.take(all.len() as int) =~= all);
    r
}

/// What is done once the unit files were verified.
#[derive(Debug, PartialEq, Eq)]
pub enum AfterVerification {
    /// Nothing is activated. These files failed, and may be deleted if the user wishes.
    Skip { failed: Vec<String> },
    /// The units are activated if the user wishes.
    Activate,
    /// Nothing is left to do: no one can be asked.
    Finish,
}

/// Decides what is done once the unit files were verified. Nothing is activated if a single one
/// failed, and no file that passed is up for deletion.
pub fn after_verification(files: &Vec<String>, passed: &Vec<bool>, interactive: bool) -> (r:
    AfterVerification)
    requires
        passed@.len() == files@.len(),
    ensures
        match r {
            AfterVerification::Skip { failed } => text::string_views(failed@).len() > 0
                && text::string_views(failed@) == failed_of(text::string_views(files@), passed@),
            AfterVerification::Activate => interactive && failed_of(
                text::string_views(files@),
                passed@,
            ).len() == 0,
            AfterVerification::Finish => !interactive && failed_of(
                text::string_views(files@),
                passed@,
            ).len() == 0,
        },
{
    let failed = failed_files(files, passed);
    let ghost listed = text::string_views(failed@);
    assert(listed.len() == failed@.len());
    if failed.len() > 0 {
        AfterVerification::Skip { failed }
    } else if interactive {
        AfterVerification::Activate
    } else {
        AfterVerification::Finish
    }
}

/// Where all units passed, none failed; where one did not, it is among those that failed.
pub proof fn law_failed_units_are_found(files: Seq<Seq<char>>, passed: Seq<bool>)
    requires
        files.len() <= passed.len(),
    ensures
        failed_of(files, passed).len() == 0 <==> forall|i: int|
            0 <= i < files.len() ==> #[trigger] passed[i],
        forall|i: int|
            0 <= i < files.len() && !#[trigger] passed[i] ==> failed_of(files, passed).contains(
                files[i],
            ),
    decreases files.len(),
{
    if files.len() > 0 {
        law_failed_units_are_found(files.drop_last(), passed);
        let before = failed_of(files.drop_last(), passed);
        let all = failed_of(files, passed);
        assert forall|i: int| 0 <= i < files.len() && !#[trigger] passed[i] implies all.contains(
            files[i],
        ) by {
            if i < files.len() - 1 {
                assert(files.drop_last()[i] == files[i]);
                let k = choose|k: int| 0 <= k < before.len() && before[k] == files[i];
                assert(all[k] == files[i]);
            } else {
                assert(all[all.len() - 1] == files[i]);
            }
        }
        assert(!passed[files.len() - 1] ==> all.len() > 0);
    }
}

/// What came of the generator's dry run: a failure is reported with what the generator said.
pub fn dry_run_outcome(success: bool, stderr: &str) -> (r: Result<(), String>)
    ensures
        match r {
            Ok(_) => success,
            Err(message) => !success && message@ == "Validation command failed: "@ + stderr@,
        },
{
    if success {
        Ok(())
    } else {
        Err("Validation command failed: ".to_owned().concat(stderr))
    }
}

/// The directory of the first file.
pub open spec fn first_dir(files: Seq<Seq<char>>) -> Option<Seq<char>> {
    if files.len() > 0 {
        paths::parent_of(files[0])
    } else {
        None
    }
}

/// The files lie where systemd looks for units.
pub open spec fn in_search_path(files: Seq<Seq<char>>) -> bool {
    match first_dir(files) {
        Some(dir) => text::holds(dir, "systemd/user"@) || text::holds(dir, "systemd/system"@),
        None => false,
    }
}

/// The question whether to activate units.
pub open spec fn activation_question(files: Seq<Seq<char>>) -> Seq<char> {
    if in_search_path(files) {
        "Reload systemd daemon and activate/start the new unit files?"@
    } else {
        let dir = match first_dir(files) {
            Some(dir) => dir,
            None => Seq::empty(),
        };
        "Files were written to '"@ + dir
            + "' (outside systemd search path). Reload daemon and attempt to activate anyway?"@
    }
}

/// The question whether to activate units, and its default: yes if systemd looks for units where
/// they lie.
pub fn activation_prompt(files: &Vec<String>) -> (r: (String, bool))
    ensures
        r.0@ == activation_question(text::string_views(files@)),
        r.1 == in_search_path(text::string_views(files@)),
{
    let ghost all = text::string_views(files@);
    let dir = if files.len() > 0 {
        assert(all[0] == files@[0]@);
        parent(files[0].as_str())
    } else {
        None
    };
    match dir {
        Some(path) if contains(path, "systemd/user") || contains(path, "systemd/system") => (
            "Reload systemd daemon and activate/start the new unit files?".to_owned(),
            true,
        ),
        _ => {
            let shown = match dir {
                Some(path) => path.to_owned(),
                None => String::new(),
            };
            let question = "Files were written to '".to_owned().concat(shown.as_str()).concat(
                "' (outside systemd search path). Reload daemon and attempt to activate anyway?",
            );
            (question, false)
        },
    }
}

/// One of `files` has a name.
pub open spec fn has_file(files: Seq<Seq<char>>, name: Seq<char>) -> bool {
    exists|j: int| 0 <= j < files.len() && paths::name_of(#[trigger] files[j]) == Some(name)
}

/// What systemctl is told about a file: timers are enabled; a service without a timer is enabled
/// if its content has an `Install` section, and else only started.
pub open spec fn unit_words(
    files: Seq<Seq<char>>,
    file: Seq<char>,
    content: Option<Seq<char>>,
) -> Option<Words> {
    match paths::name_of(file) {
        None => None,
        Some(name) => {
            let installs = match content {
                Some(s) => text::holds(s, "[Install]"@),
                None => false,
            };
            if text::ends(name, ".timer"@) {
                Some(seq!["enable"@, "--now"@, name])
            } else if !text::ends(name, ".service"@) {
                None
            } else if has_file(files, name.take(name.len() - ".service"@.len()) + ".timer"@) {
                None
            } else if installs {
                Some(seq!["enable"@, "--now"@, name])
            } else {
                Some(seq!["start"@, name])
            }
        },
    }
}

/// Whether one of `files` has a name.
fn any_named(files: &Vec<String>, name: &str) -> (r: bool)
    ensures
        r == has_file(text::string_views(files@), name@),
{
    let ghost all = text::string_views(files@);
    let mut i: usize = 0;
    while i < files.len()
        invariant
            i <= files@.len(),
            all == text::string_views(files@),
            forall|j: int| 0 <= j < i ==> paths::name_of(#[trigger] all[j]) != Some(name@),
        decreases files@.len() - i,
    {
        assert(all[i as int] == files@[i as int]@);
        if let Some(found) = file_name(files[i].as_str()) {
            if same(found, name) {
                return true;
            }
        }
        i += 1;
    }
    false
}

/// Makes a list of words.
fn words(first: &str, second: &str) -> (r: Vec<String>)
    ensures
        text::string_views(r@) == seq![first@, second@],
{
    let mut r: Vec<String> = Vec::new();
    r.push(first.to_owned());
    r.push(second.to_owned());
    assert(text::string_views(r@) =~= seq![first@, second@]);
    r
}

/// What systemctl is told to enable a unit.
fn enable_words(name: &str) -> (r: Vec<String>)
    ensures
        text::string_views(r@) == seq!["enable"@, "--now"@, name@],
{
    let mut r = words("enable", "--now");
    let ghost before = text::string_views(r@);
    r.push(name.to_owned());
    assert(text::string_views(r@) =~= before.push(name@));
    assert(before.push(name@) =~= seq!["enable"@, "--now"@, name@]);
    r
}

/// What systemctl is told about a file, given the content of the file if it could be read.
pub fn unit_action(files: &Vec<String>, file: &str, content: Option<&str>) -> (r: Option<
    Vec<String>,
>)
    ensures
        match r {
            Some(found) => unit_words(
                text::string_views(files@),
                file@,
                text::str_view(content),
            ) == Some(text::string_views(found@)),
            None => unit_words(text::string_views(files@), file@, text::str_view(content)) is None,
        },
{
    match file_name(file) {
        None => None,
        Some(name) => {
            if ends_with(name, ".timer") {
                return Some(enable_words(name));
            }
            if !ends_with(name, ".service") {
                return None;
            }
            proof {
                reveal_strlit(".service");
            }
            let n: usize = name.unicode_len();
            let base = name.substring_char(0, n - 8);
            assert(base@ =~= name@.take(n - 8));
            if any_named(files, base.to_owned().concat(".timer").as_str()) {
                return None;
            }
            match content {
                Some(s) if contains(s, "[Install]") => Some(enable_words(name)),
                _ => Some(words("start", name)),
            }
        },
    }
}

/// The commands about `files`, in order; files that need none are left out.
pub open spec fn files_commands(
    all: Seq<Seq<char>>,
    files: Seq<Seq<char>>,
    contents: Seq<Option<Seq<char>>>,
    is_root: bool,
) -> Seq<Words>
    decreases files.len(),
{
    if files.len() == 0 {
        Seq::empty()
    } else {
        let before = files_commands(all, files.drop_last(), contents, is_root);
        match unit_words(all, files.last(), contents[files.len() - 1]) {
            Some(more) => before.push(utils::systemctl_words(is_root) + more),
            None => before,
        }
    }
}

/// The command that makes systemd read its units again.
pub open spec fn reload_words(is_root: bool) -> Words {
    utils::systemctl_words(is_root) + seq!["daemon-reload"@]
}

/// The commands that activate units: systemd reads its units again, then each file has its turn.
pub open spec fn activation_of(
    files: Seq<Seq<char>>,
    contents: Seq<Option<Seq<char>>>,
    is_root: bool,
) -> Seq<Words> {
    seq![reload_words(is_root)] + files_commands(files, files, contents, is_root)
}

/// What a list of contents says.
pub open spec fn contents_view(contents: Seq<Option<String>>) -> Seq<Option<Seq<char>>> {
    contents.map_values(|c: Option<String>| text::string_view(c))
}

/// The command that makes systemd read its units again.
fn reload_cmd(is_root: bool) -> (r: Vec<String>)
    ensures
        text::string_views(r@) == reload_words(is_root),
{
    let mut r = systemctl_cmd(is_root);
    let ghost before = text::string_views(r@);
    r.push("daemon-reload".to_owned());
    assert(text::string_views(r@) =~= before + seq!["daemon-reload"@]);
    r
}

/// The commands that activate units, given the content of each file that could be read.
pub fn activate_units(files: &Vec<String>, contents: &Vec<Option<String>>, is_root: bool) -> (r:
    Vec<Vec<String>>)
    requires
        contents@.len() == files@.len(),
    ensures
        commands_view(r@) == activation_of(
            text::string_views(files@),
            contents_view(contents@),
            is_root,
        ),
{
    let ghost all = text::string_views(files@);
    let ghost given = contents_view(contents@);
    let ghost head = seq![reload_words(is_root)];
    let mut r: Vec<Vec<String>> = Vec::new();
    r.push(reload_cmd(is_root));
    assert(commands_view(r@) =~= head + files_commands(all, all.take(0), given, is_root));
    let mut i: usize = 0;
    while i < files.len()
        invariant
            i <= files@.len() == contents@.len(),
            all == text::string_views(files@),
            given == contents_view(contents@),
            commands_view(r@) == head + files_commands(all, all.take(i as int), given, is_root),
        decreases files@.len() - i,
    {
        let ghost before = commands_view(r@);
        proof {
            assert(all.take(i + 1).drop_last() =~= all.take(i as int));
            assert(all.take(i + 1).last() == files@[i as int]@);
            assert(given[i as int] == text::string_view(contents@[i as int]));
        }
        let content = match &contents[i] {
            Some(s) => Some(s.as_str()),
            None => None,
        };
        if let Some(more) = unit_action(files, files[i].as_str(), content) {
            let mut command = systemctl_cmd(is_root);
            text::add_all(&mut command, more);
            r.push(command);
            assert(commands_view(r@) =~= before.push(text::string_views(command@)));
        }
        assert(commands_view(r@) =~= head + files_commands(all, all.take(i + 1), given, is_root));
        i += 1;
    }
    assert(all.take(all.len() as int) =~= all);
    r
}

/// Without a home directory there is no place for a user's quadlets.
#[derive(Debug, Clone, Copy, PartialEq, Eq, Structural)]
pub struct NoHome;

impl NoHome {
    /// The message for the user.
    pub fn message(&self) -> (r: String)
        ensures
            r@ == "HOME environment variable not set"@,
    {
        "HOME environment variable not set".to_owned()
    }
}

/// Where quadlets are looked for: the system's directory for its administrator, and one in their
/// home directory for others.
pub fn quadlet_dir(is_root: bool, home: Option<&str>) -> (r: Result<String, NoHome>)
    ensures
        match r {
            Ok(dir) => if is_root {
                dir@ == "/etc/containers/systemd"@
            } else {
                home matches Some(path) && dir@ == path@ + "/.config/containers/systemd"@
            },
            Err(_) => !is_root && home is None,
        },
{
    if is_root {
        Ok("/etc/containers/systemd".to_owned())
    } else {
        match home {
            Some(path) => Ok(path.to_owned().concat("/.config/containers/systemd")),
            None => Err(NoHome),
        }
    }
}

/// The command that tries the generation of units out of quadlets.
pub open spec fn generator_words(is_root: bool) -> Words {
    let common = seq![
        "/usr/lib/systemd/system-generators/podman-system-generator"@,
        "--dryrun"@,
    ];
    if is_root {
        common
    } else {
        common.push("--user"@)
    }
}

/// The command that tries the generation of units out of quadlets.
pub fn generator_cmd(is_root: bool) -> (r: Vec<String>)
    ensures
        text::string_views(r@) == generator_words(is_root),
{
    let mut r = words("/usr/lib/systemd/system-generators/podman-system-generator", "--dryrun");
    let ghost before = text::string_views(r@);
    if !is_root {
        r.push("--user".to_owned());
        assert(text::string_views(r@) =~= before.push("--user"@));
    }
    r
}

/// The question whether to link quadlets to where they are looked for. Its default is yes, and it
/// is not asked where they are there already.
pub fn link_question(current_dir: &str, target_dir: &str) -> (r: Option<String>)
    ensures
        match r {
            Some(question) => !paths::equal_paths(current_dir@, target_dir@) && question@
                == "Create symlinks in '"@ + target_dir@ + "'?"@,
            None => paths::equal_paths(current_dir@, target_dir@),
        },
{
    if same_path(current_dir, target_dir) {
        None
    } else {
        Some("Create symlinks in '".to_owned().concat(target_dir).concat("'?"))
    }
}

/// The file that a link to a quadlet leads to, and where the link lies. A path without a file name
/// gives none.
pub fn link_paths(file: &str, current_dir: &str, target_dir: &str) -> (r: Option<(String, String)>)
    ensures
        match r {
            Some((source, link)) => paths::name_of(file@) matches Some(name) && source@
                == paths::path_in(current_dir@, name) && link@ == paths::path_in(target_dir@, name),
            None => paths::name_of(file@) is None,
        },
{
    match file_name(file) {
        Some(name) => Some((join_path(current_dir, name), join_path(target_dir, name))),
        None => None,
    }
}

/// The service that podman makes of a pod.
pub open spec fn pod_service_of(file: Seq<char>) -> Option<Seq<char>> {
    match paths::name_of(file) {
        Some(name) if paths::suffix_of(name) == Some("pod"@) => Some(
            paths::stem_of(name) + "-pod.service"@,
        ),
        _ => None,
    }
}

/// The service that podman makes of a pod.
pub fn pod_service(file: &str) -> (r: Option<String>)
    ensures
        text::string_view(r) == pod_service_of(file@),
{
    match (file_name(file), extension(file)) {
        (Some(name), Some(ext)) => {
            if same(ext, "pod") {
                Some(file_stem(name).to_owned().concat("-pod.service"))
            } else {
                None
            }
        },
        _ => None,
    }
}

/// The commands about the pods among `files`, in order.
pub open spec fn pods_commands(files: Seq<Seq<char>>, is_root: bool) -> Seq<Words>
    decreases files.len(),
{
    if files.len() == 0 {
        Seq::empty()
    } else {
        let before = pods_commands(files.drop_last(), is_root);
        match pod_service_of(files.last()) {
            Some(service) => before.push(
                utils::systemctl_words(is_root) + seq!["restart"@, service],
            ),
            None => before,
        }
    }
}

/// The commands that activate quadlets: systemd reads its units again, then each pod's service is
/// restarted.
pub fn activate_quadlets(files: &Vec<String>, is_root: bool) -> (r: Vec<Vec<String>>)
    ensures
        commands_view(r@) == seq![reload_words(is_root)] + pods_commands(
            text::string_views(files@),
            is_root,
        ),
{
    let ghost all = text::string_views(files@);
    let ghost head = seq![reload_words(is_root)];
    let mut r: Vec<Vec<String>> = Vec::new();
    r.push(reload_cmd(is_root));
    assert(commands_view(r@) =~= head + pods_commands(all.take(0), is_root));
    let mut i: usize = 0;
    while i < files.len()
        invariant
            i <= files@.len(),
            all == text::string_views(files@),
            commands_view(r@) == head + pods_commands(all.take(i as int), is_root),
        decreases files@.len() - i,
    {
        let ghost before = commands_view(r@);
        proof {
            assert(all.take(i + 1).drop_last() =~= all.take(i as int));
            assert(all.take(i + 1).last() == files@[i as int]@);
        }
        if let Some(service) = pod_service(files[i].as_str()) {
            let mut command = systemctl_cmd(is_root);
            text::add_all(&mut command, words("restart", service.as_str()));
            r.push(command);
            assert(commands_view(r@) =~= before.push(text::string_views(command@)));
        }
        assert(commands_view(r@) =~= head + pods_commands(all.take(i + 1), is_root));
        i += 1;
    }
    assert(all.take(all.len() as int) =~= all);
    r
}

/// A service that a timer among the same files starts is left to its timer.
pub proof fn law_timed_service_is_left_alone(
    files: Seq<Seq<char>>,
    service: Seq<char>,
    timer: Seq<char>,
    base: Seq<char>,
    content: Option<Seq<char>>,
)
    requires
        files.contains(timer),
        paths::name_of(service) == Some(base + ".service"@),
        paths::name_of(timer) == Some(base + ".timer"@),
    ensures
        unit_words(files, service, content) is None,
        unit_words(files, timer, content) == Some(seq!["enable"@, "--now"@, base + ".timer"@]),
{
    reveal_strlit(".service");
    reveal_strlit(".timer");
    let name = base + ".service"@;
    let n = name.len();
    assert(name.take(n - 8) =~= base);
    assert(name[n - 1] == 'e');
    if text::ends(name, ".timer"@) {
        assert(name.skip(n - 6)[5] == 'r');
    }
    let other = base + ".timer"@;
    assert(other.skip(other.len() - 6) =~= ".timer"@);
    assert(text::ends(other, ".timer"@));
    let j = files.index_of(timer);
    assert(paths::name_of(files[j]) == Some(other));
}

/// A unit file is verified by `systemd-analyze`, systemd is told to read its units again by
/// `daemon-reload`, and the generator is tried out by `--dryrun`; users other than the
/// administrator are served by their own systemd.
pub proof fn law_commands_are_spelled_out(file: Seq<char>)
    ensures
        verification_of(file) == seq!["systemd-analyze"@, "verify"@, file],
        reload_words(true) == seq!["systemctl"@, "daemon-reload"@],
        reload_words(false) == seq!["systemctl"@, "--user"@, "daemon-reload"@],
        generator_words(true) == seq![
            "/usr/lib/systemd/system-generators/podman-system-generator"@,
            "--dryrun"@,
        ],
        generator_words(false) == seq![
            "/usr/lib/systemd/system-generators/podman-system-generator"@,
            "--dryrun"@,
            "--user"@,
        ],
{
    assert(reload_words(true) =~= seq!["systemctl"@, "daemon-reload"@]);
    assert(reload_words(false) =~= seq!["systemctl"@, "--user"@, "daemon-reload"@]);
    assert(generator_words(false) =~= seq![
        "/usr/lib/systemd/system-generators/podman-system-generator"@,
        "--dryrun"@,
        "--user"@,
    ]);
}

/// Results beyond the files have no say.
proof fn lemma_failed_prefix(files: Seq<Seq<char>>, passed: Seq<bool>, more: Seq<bool>)
    requires
        files.len() <= passed.len(),
    ensures
        failed_of(files, passed + more) == failed_of(files, passed),
    decreases files.len(),
{
    if files.len() > 0 {
        lemma_failed_prefix(files.drop_last(), passed, more);
        assert((passed + more)[files.len() - 1] == passed[files.len() - 1]);
    }
}

/// Which files failed is told one by one, in their order: a file is listed exactly if it did not
/// pass.
pub proof fn law_failed_units_are_told_one_by_one(
    a: Seq<Seq<char>>,
    of_a: Seq<bool>,
    b: Seq<Seq<char>>,
    of_b: Seq<bool>,
    file: Seq<char>,
    passed: bool,
)
    requires
        a.len() == of_a.len(),
        b.len() == of_b.len(),
    ensures
        failed_of(seq![file], seq![passed]) == (if passed {
            Seq::empty()
        } else {
            seq![file]
        }),
        failed_of(a + b, of_a + of_b) == failed_of(a, of_a) + failed_of(b, of_b),
    decreases b.len(),
{
    let none = Seq::<Seq<char>>::empty();
    assert(seq![file].drop_last() =~= none);
    assert(failed_of(none, seq![passed]) =~= none);
    assert(seq![file].last() == file);
    assert(failed_of(seq![file], seq![passed]) =~= (if passed {
        none
    } else {
        seq![file]
    }));
    if b.len() == 0 {
        assert(a + b =~= a);
        assert(of_a + of_b =~= of_a);
        assert(failed_of(a, of_a) + failed_of(b, of_b) =~= failed_of(a, of_a));
    } else {
        let init = b.drop_last();
        let of_init = of_b.drop_last();
        law_failed_units_are_told_one_by_one(a, of_a, init, of_init, file, passed);
        assert((a + b).drop_last() =~= a + init);
        assert((a + b).last() == b.last());
        let last = seq![of_b.last()];
        assert(of_init + last =~= of_b);
        assert(of_a + of_b =~= (of_a + of_init) + last);
        lemma_failed_prefix(a + init, of_a + of_init, last);
        lemma_failed_prefix(init, of_init, last);
        assert((of_a + of_b)[(a + b).len() - 1] == of_b[b.len() - 1]);
        assert(failed_of(a + b, of_a + of_b) =~= failed_of(a, of_a) + failed_of(b, of_b));
    }
}

/// Units lie where systemd looks for them if the directory of the first one is one of those for
/// units; the question, and whether its default is yes, go by that. Without files they lie nowhere.
pub proof fn law_search_path_goes_by_first_directory(
    dir: Seq<char>,
    name: Seq<char>,
    rest: Seq<Seq<char>>,
)
    requires
        name.len() > 0,
        name != "."@,
        !name.contains('/'),
        dir.len() > 0,
        dir.last() != '/',
        !text::ends(dir, "/."@),
    ensures
        in_search_path(seq![dir + "/"@ + name] + rest) <==> text::holds(dir, "systemd/user"@)
            || text::holds(dir, "systemd/system"@),
        !in_search_path(Seq::empty()),
        in_search_path(seq![dir + "/"@ + name] + rest) ==> activation_question(
            seq![dir + "/"@ + name] + rest,
        ) == "Reload systemd daemon and activate/start the new unit files?"@,
        !in_search_path(seq![dir + "/"@ + name] + rest) ==> activation_question(
            seq![dir + "/"@ + name] + rest,
        ) == "Files were written to '"@ + dir
            + "' (outside systemd search path). Reload daemon and attempt to activate anyway?"@,
{
    paths::law_parent_stands_before_name(dir, name, dir);
    assert((seq![dir + "/"@ + name] + rest)[0] == dir + "/"@ + name);
}

/// A timer is enabled. A service without a timer beside it is enabled if its content has an
/// `Install` section, and else only started, also if it could not be read. Any other file is left
/// alone.
pub proof fn law_units_are_enabled_or_started(
    files: Seq<Seq<char>>,
    dir: Seq<char>,
    base: Seq<char>,
    content: Seq<char>,
    name: Seq<char>,
)
    requires
        !base.contains('/'),
        name.len() > 0,
        name != "."@,
        name != ".."@,
        !name.contains('/'),
        !text::ends(name, ".timer"@),
        !text::ends(name, ".service"@),
        forall|j: int|
            0 <= j < files.len() ==> paths::name_of(#[trigger] files[j]) != Some(base + ".timer"@),
    ensures
        unit_words(files, dir + "/"@ + (base + ".timer"@), None) == Some(
            seq!["enable"@, "--now"@, base + ".timer"@],
        ),
        unit_words(files, dir + "/"@ + (base + ".timer"@), Some(content)) == Some(
            seq!["enable"@, "--now"@, base + ".timer"@],
        ),
        text::holds(content, "[Install]"@) ==> unit_words(
            files,
            dir + "/"@ + (base + ".service"@),
            Some(content),
        ) == Some(seq!["enable"@, "--now"@, base + ".service"@]),
        !text::holds(content, "[Install]"@) ==> unit_words(
            files,
            dir + "/"@ + (base + ".service"@),
            Some(content),
        ) == Some(seq!["start"@, base + ".service"@]),
        unit_words(files, dir + "/"@ + (base + ".service"@), None) == Some(
            seq!["start"@, base + ".service"@],
        ),
        unit_words(files, dir + "/"@ + name, Some(content)) is None,
        unit_words(files, dir + "/"@ + name, None) is None,
{
    reveal_strlit(".service");
    reveal_strlit(".timer");
    reveal_strlit(".");
    reveal_strlit("..");
    let timer = base + ".timer"@;
    let service = base + ".service"@;
    assert forall|i: int| 0 <= i < timer.len() implies timer[i] != '/' by {
        if i < base.len() {
            assert(base.contains(base[i]));
        }
    }
    assert forall|i: int| 0 <= i < service.len() implies service[i] != '/' by {
        if i < base.len() {
            assert(base.contains(base[i]));
        }
    }
    paths::law_name_stands_last(dir, timer);
    paths::law_name_stands_last(dir, service);
    paths::law_name_stands_last(dir, name);
    text::law_ends_of_a_text(timer, ".timer"@, base);
    text::law_ends_of_a_text(service, ".service"@, base);
    let n = service.len();
    assert(service[n - 1] == 'e');
    if text::ends(service, ".timer"@) {
        assert(service.skip(n - 6)[5] == 'r');
    }
    assert(service.take(n - 8) =~= base);
    assert(!has_file(files, timer));
}

/// Contents beyond the files have no say.
proof fn lemma_commands_prefix(
    all: Seq<Seq<char>>,
    files: Seq<Seq<char>>,
    contents: Seq<Option<Seq<char>>>,
    more: Seq<Option<Seq<char>>>,
    is_root: bool,
)
    requires
        files.len() <= contents.len(),
    ensures
        files_commands(all, files, contents + more, is_root) == files_commands(
            all,
            files,
            contents,
            is_root,
        ),
    decreases files.len(),
{
    if files.len() > 0 {
        lemma_commands_prefix(all, files.drop_last(), contents, more, is_root);
        assert((contents + more)[files.len() - 1] == contents[files.len() - 1]);
    }
}

/// Activation starts with systemd reading its units again. Then each file has its turn, in order,
/// with the content that belongs to it; a file that needs nothing gets no command.
pub proof fn law_files_have_their_turn(
    all: Seq<Seq<char>>,
    a: Seq<Seq<char>>,
    of_a: Seq<Option<Seq<char>>>,
    b: Seq<Seq<char>>,
    of_b: Seq<Option<Seq<char>>>,
    file: Seq<char>,
    content: Option<Seq<char>>,
    is_root: bool,
)
    requires
        a.len() == of_a.len(),
        b.len() == of_b.len(),
    ensures
        activation_of(a, of_a, is_root) == seq![reload_words(is_root)] + files_commands(
            a,
            a,
            of_a,
            is_root,
        ),
        unit_words(all, file, content) is None ==> files_commands(
            all,
            seq![file],
            seq![content],
            is_root,
        ).len() == 0,
        unit_words(all, file, content) matches Some(more) ==> files_commands(
            all,
            seq![file],
            seq![content],
            is_root,
        ) == seq![
            (if is_root {
                seq!["systemctl"@]
            } else {
                seq!["systemctl"@, "--user"@]
            }) + more,
        ],
        files_commands(all, a + b, of_a + of_b, is_root) == files_commands(all, a, of_a, is_root)
            + files_commands(all, b, of_b, is_root),
    decreases b.len(),
{
    let none = Seq::<Seq<char>>::empty();
    assert(seq![file].drop_last() =~= none);
    assert(files_commands(all, none, seq![content], is_root) =~= Seq::empty());
    assert(seq![file].last() == file);
    if let Some(more) = unit_words(all, file, content) {
        assert(files_commands(all, seq![file], seq![content], is_root) =~= seq![
            utils::systemctl_words(is_root) + more,
        ]);
    }
    if b.len() == 0 {
        assert(a + b =~= a);
        assert(of_a + of_b =~= of_a);
        assert(files_commands(all, a, of_a, is_root) + files_commands(all, b, of_b, is_root)
            =~= files_commands(all, a, of_a, is_root));
    } else {
        let init = b.drop_last();
        let of_init = of_b.drop_last();
        law_files_have_their_turn(all, a, of_a, init, of_init, file, content, is_root);
        assert((a + b).drop_last() =~= a + init);
        assert((a + b).last() == b.last());
        let last = seq![of_b.last()];
        assert(of_init + last =~= of_b);
        assert(of_a + of_b =~= (of_a + of_init) + last);
        lemma_commands_prefix(all, a + init, of_a + of_init, last, is_root);
        lemma_commands_prefix(all, init, of_init, last, is_root);
        assert((of_a + of_b)[(a + b).len() - 1] == of_b[b.len() - 1]);
        assert(files_commands(all, a + b, of_a + of_b, is_root) =~= files_commands(
            all,
            a,
            of_a,
            is_root,
        ) + files_commands(all, b, of_b, is_root));
    }
}

/// The service of a pod is named after its file. Files of other kinds have none.
pub proof fn law_pods_have_services(dir: Seq<char>, stem: Seq<char>, ext: Seq<char>)
    requires
        stem.len() > 0,
        ext.len() > 0,
        !stem.contains('/'),
        !ext.contains('/'),
        !ext.contains('.'),
    ensures
        ext == "pod"@ ==> pod_service_of(dir + "/"@ + (stem + "."@ + ext)) == Some(
            stem + "-pod.service"@,
        ),
        ext == "pod"@ ==> pod_service_of(stem + "."@ + ext) == Some(stem + "-pod.service"@),
        ext != "pod"@ ==> pod_service_of(dir + "/"@ + (stem + "."@ + ext)) is None,
        ext != "pod"@ ==> pod_service_of(stem + "."@ + ext) is None,
        pod_service_of(ext) is None,
{
    reveal_strlit(".");
    reveal_strlit("..");
    let name = stem + "."@ + ext;
    assert(name.len() > 2);
    assert forall|i: int| 0 <= i < name.len() implies name[i] != '/' by {
        if i < stem.len() {
            assert(stem.contains(stem[i]));
        } else if i > stem.len() {
            assert(name[i] == ext[i - stem.len() - 1]);
            assert(ext.contains(ext[i - stem.len() - 1]));
        }
    }
    paths::law_name_stands_last(dir, name);
    paths::law_extension_stands_behind_last_dot(stem, ext);
    assert(ext.contains(ext[0]));
    paths::law_name_stands_last(dir, ext);
}

/// Each pod's service is restarted, in the order of the files; other files get no command.
pub proof fn law_pods_are_restarted(
    a: Seq<Seq<char>>,
    b: Seq<Seq<char>>,
    file: Seq<char>,
    is_root: bool,
)
    ensures
        pod_service_of(file) is None ==> pods_commands(seq![file], is_root).len() == 0,
        pod_service_of(file) matches Some(service) ==> pods_commands(seq![file], true) == seq![
            seq!["systemctl"@, "restart"@, service],
        ] && pods_commands(seq![file], false) == seq![
            seq!["systemctl"@, "--user"@, "restart"@, service],
        ],
        pods_commands(a + b, is_root) == pods_commands(a, is_root) + pods_commands(b, is_root),
    decreases b.len(),
{
    let none = Seq::<Seq<char>>::empty();
    assert(seq![file].drop_last() =~= none);
    assert(pods_commands(none, is_root) =~= Seq::empty());
    assert(pods_commands(none, true) =~= Seq::empty());
    assert(pods_commands(none, false) =~= Seq::empty());
    assert(seq![file].last() == file);
    if let Some(service) = pod_service_of(file) {
        assert(utils::systemctl_words(true) + seq!["restart"@, service] =~= seq![
            "systemctl"@,
            "restart"@,
            service,
        ]);
        assert(utils::systemctl_words(false) + seq!["restart"@, service] =~= seq![
            "systemctl"@,
            "--user"@,
            "restart"@,
            service,
        ]);
        assert(pods_commands(seq![file], true) =~= seq![
            seq!["systemctl"@, "restart"@, service],
        ]);
        assert(pods_commands(seq![file], false) =~= seq![
            seq!["systemctl"@, "--user"@, "restart"@, service],
        ]);
    }
    if b.len() == 0 {
        assert(a + b =~= a);
        assert(pods_commands(a, is_root) + pods_commands(b, is_root) =~= pods_commands(a, is_root));
    } else {
        law_pods_are_restarted(a, b.drop_last(), file, is_root);
        assert((a + b).drop_last() =~= a + b.drop_last());
        assert((a + b).last() == b.last());
        assert(pods_commands(a + b, is_root) =~= pods_commands(a, is_root) + pods_commands(
            b,
            is_root,
        ));
    }
}

/// Where units lie is told by the parent of the first file alone, and so is what is asked about
/// them.
pub proof fn law_first_parent_decides(files: Seq<Seq<char>>)
    requires
        files.len() > 0,
    ensures
        paths::parent_of(files[0]) matches Some(dir) ==> (in_search_path(files) <==> text::holds(
            dir,
            "systemd/user"@,
        ) || text::holds(dir, "systemd/system"@)),
        paths::parent_of(files[0]) is None ==> !in_search_path(files),
        paths::parent_of(files[0]) matches Some(dir) ==> !in_search_path(files)
            ==> activation_question(files) == "Files were written to '"@ + dir
            + "' (outside systemd search path). Reload daemon and attempt to activate anyway?"@,
{
}

/// A path without a file name is no unit and no pod.
pub proof fn law_nameless_files_are_left_alone(
    files: Seq<Seq<char>>,
    file: Seq<char>,
    content: Option<Seq<char>>,
)
    requires
        paths::name_of(file) is None,
    ensures
        unit_words(files, file, content) is None,
        pod_service_of(file) is None,
{
}

} // verus!
