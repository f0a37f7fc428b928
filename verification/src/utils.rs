//! Asking for confirmation, permissions, and the commands that are run.
use crate::paths::{self, join_path};
use crate::text::{self, chars_of, contains, same, split};
use vstd::prelude::*;

verus! {

/// One of the wanted permission bits is set in the mode of a file that could be opened.
pub open spec fn permits(mode: Option<u32>, bitflag: u32) -> bool {
    match mode {
        Some(bits) => bits & bitflag != 0,
        None => false,
    }
}

/// Whether a file, given by its mode if it could be opened, has one of the wanted permission bits.
pub fn has_permission(mode: Option<u32>, bitflag: u32) -> (r: bool)
    ensures
        r == permits(mode, bitflag),
{
    match mode {
        Some(bits) => bits & bitflag != 0,
        None => false,
    }
}

/// Whether someone can be asked: the terminal, given by its mode if it could be opened, can be
/// written to.
pub fn is_interactive(tty_mode: Option<u32>) -> (r: bool)
    ensures
        r == permits(tty_mode, 0o222),
{
    has_permission(tty_mode, 0o222)
}

/// A letter in lower case, if it is an ASCII letter.
pub open spec fn lower(c: char) -> char {
    if 'A' <= c <= 'Z' {
        ((c as u32) + 32) as char
    } else {
        c
    }
}

/// Two texts are the same but for the case of ASCII letters.
pub open spec fn same_but_case(a: Seq<char>, b: Seq<char>) -> bool {
    &&& a.len() == b.len()
    &&& forall|i: int| 0 <= i < a.len() ==> lower(#[trigger] a[i]) == lower(b[i])
}

/// A letter in lower case, if it is an ASCII letter.
fn to_lower(c: char) -> (r: char)
    ensures
        r == lower(c),
{
    if 'A' <= c && c <= 'Z' {
        let code: u8 = c as u8;
        (code + 32) as char
    } else {
        c
    }
}

/// Whether two texts are the same but for the case of ASCII letters.
fn equal_but_case(a: &str, b: &str) -> (r: bool)
    ensures
        r == same_but_case(a@, b@),
{
    let xs = chars_of(a);
    let ys = chars_of(b);
    if xs.len() != ys.len() {
        return false;
    }
    let mut i: usize = 0;
    while i < xs.len()
        invariant
            i <= xs@.len() == ys@.len(),
            xs@ == a@,
            ys@ == b@,
            forall|j: int| 0 <= j < i ==> lower(#[trigger] a@[j]) == lower(b@[j]),
        decreases xs@.len() - i,
    {
        if to_lower(xs[i]) != to_lower(ys[i]) {
            assert(lower(a@[i as int]) != lower(b@[i as int]));
            return false;
        }
        i += 1;
    }
    true
}

/// What the setting for automatic answers says, if it says anything.
pub open spec fn automatic(setting: Option<Seq<char>>) -> Option<bool> {
    match setting {
        Some(s) => if same_but_case(s, "true"@) || s == "1"@ {
            Some(true)
        } else if same_but_case(s, "false"@) || s == "0"@ {
            Some(false)
        } else {
            None
        },
        None => None,
    }
}

/// What comes of a question.
#[derive(Debug, Clone, Copy, PartialEq, Eq, Structural)]
pub enum Asking {
    /// It is answered already.
    Answered(bool),
    /// A dialog is needed.
    Dialog,
}

/// How a question is answered: by the setting for automatic answers, by its default if nobody can
/// be asked, and else in a dialog.
pub open spec fn asking(setting: Option<Seq<char>>, interactive: bool, yes_default: bool) -> Asking {
    match automatic(setting) {
        Some(answer) => Asking::Answered(answer),
        None => if interactive {
            Asking::Dialog
        } else {
            Asking::Answered(yes_default)
        },
    }
}

/// Decides how a question is answered. `setting` is the value of `SLATER_AUTO`.
pub fn ask_confirm(setting: Option<&str>, interactive: bool, yes_default: bool) -> (r: Asking)
    ensures
        r == asking(text::str_view(setting), interactive, yes_default),
{
    if let Some(s) = setting {
        if equal_but_case(s, "true") || same(s, "1") {
            return Asking::Answered(true);
        } else if equal_but_case(s, "false") || same(s, "0") {
            return Asking::Answered(false);
        }
    }
    if !interactive {
        Asking::Answered(yes_default)
    } else {
        Asking::Dialog
    }
}

/// The label of a choice in a dialog. The choice offered first is the default.
pub open spec fn label(yes_default: bool, first: bool) -> Seq<char> {
    if first == yes_default {
        "Yes"@
    } else {
        "No"@
    }
}

/// The labels of the two choices in a dialog, in order.
pub fn dialog_labels(yes_default: bool) -> (r: (&'static str, &'static str))
    ensures
        r.0@ == label(yes_default, true),
        r.1@ == label(yes_default, false),
{
    if yes_default {
        ("Yes", "No")
    } else {
        ("No", "Yes")
    }
}

/// The answer of someone who took the first choice or the other.
pub open spec fn choice_answer(yes_default: bool, first: bool) -> bool {
    first == yes_default
}

/// The answer that a dialog gave. `first` says whether the choice offered first was taken.
pub fn dialog_answer(yes_default: bool, first: bool) -> (r: bool)
    ensures
        r == choice_answer(yes_default, first),
{
    if yes_default {
        first
    } else {
        !first
    }
}

/// The choice called `Yes` means yes, the other one no, and the first one is the default.
pub proof fn law_labels_mean_answers(yes_default: bool, first: bool)
    ensures
        choice_answer(yes_default, first) == (label(yes_default, first) == "Yes"@),
        choice_answer(yes_default, true) == yes_default,
{
    reveal_strlit("Yes");
    reveal_strlit("No");
    assert("Yes"@.len() != "No"@.len());
}

/// A setting for automatic answers answers every question alike, whatever its default and whether
/// or not someone could be asked.
pub proof fn law_automatic_answers_are_uniform(
    setting: Seq<char>,
    answer: bool,
    interactive: bool,
    yes_default: bool,
)
    requires
        automatic(Some(setting)) == Some(answer),
    ensures
        asking(Some(setting), interactive, yes_default) == Asking::Answered(answer),
{
}

/// Where nothing is set and nobody can be asked, a question is answered by its default.
pub proof fn law_default_answers_unasked(yes_default: bool)
    ensures
        asking(None, false, yes_default) == Asking::Answered(yes_default),
{
}

/// The command for systemd: that of the system for its administrator, of the user for others.
pub open spec fn systemctl_words(is_root: bool) -> Seq<Seq<char>> {
    if is_root {
        seq!["systemctl"@]
    } else {
        seq!["systemctl"@, "--user"@]
    }
}

/// The command for systemd, to which arguments can be added.
pub fn systemctl_cmd(is_root: bool) -> (r: Vec<String>)
    ensures
        text::string_views(r@) == systemctl_words(is_root),
{
    let mut r: Vec<String> = Vec::new();
    r.push("systemctl".to_owned());
    if !is_root {
        r.push("--user".to_owned());
    }
    assert(text::string_views(r@) =~= systemctl_words(is_root));
    r
}

/// Where a command may lie: where it says if it is a path, or else in each directory of the search
/// path.
pub open spec fn command_places(
    cmd: Seq<char>,
    search_path: Option<Seq<char>>,
) -> Seq<Seq<char>> {
    if text::holds(cmd, "/"@) {
        seq![cmd]
    } else {
        match search_path {
            Some(dirs) => text::pieces(dirs, ":"@).map_values(
                |dir: Seq<char>| paths::path_in(dir, cmd),
            ),
            None => Seq::empty(),
        }
    }
}

/// Where a command may lie. `search_path` is the value of `PATH`.
pub fn command_candidates(cmd: &str, search_path: Option<&str>) -> (r: Vec<String>)
    ensures
        text::string_views(r@) == command_places(cmd@, text::str_view(search_path)),
{
    let mut r: Vec<String> = Vec::new();
    if contains(cmd, "/") {
        r.push(cmd.to_owned());
        assert(text::string_views(r@) =~= seq![cmd@]);
        return r;
    }
    if let Some(all) = search_path {
        proof {
            reveal_strlit(":");
        }
        let dirs = split(all, ":");
        let ghost places = text::pieces(all@, ":"@);
        let mut i: usize = 0;
        while i < dirs.len()
            invariant
                i <= dirs@.len() == places.len(),
                places == text::views(dirs@),
                r@.len() == i,
                forall|j: int|
                    0 <= j < i ==> (#[trigger] r@[j])@ == paths::path_in(places[j], cmd@),
            decreases dirs@.len() - i,
        {
            r.push(join_path(dirs[i], cmd));
            i += 1;
        }
    }
    assert(text::string_views(r@) =~= command_places(cmd@, text::str_view(search_path)));
    r
}

/// The first of `candidates` that is an executable file. `modes` holds the mode of each that is a
/// file and could be opened.
pub fn which(candidates: &Vec<String>, modes: &Vec<Option<u32>>) -> (r: Option<String>)
    requires
        modes@.len() == candidates@.len(),
    ensures
        match r {
            Some(path) => exists|i: int|
                0 <= i < candidates@.len() && path@ == (#[trigger] candidates@[i])@ && permits(
                    modes@[i],
                    0o111,
                ) && forall|j: int| 0 <= j < i ==> !permits(#[trigger] modes@[j], 0o111),
            None => forall|j: int| 0 <= j < modes@.len() ==> !permits(#[trigger] modes@[j], 0o111),
        },
{
    let mut i: usize = 0;
    while i < candidates.len()
        invariant
            i <= candidates@.len() == modes@.len(),
            forall|j: int| 0 <= j < i ==> !permits(#[trigger] modes@[j], 0o111),
        decreases candidates@.len() - i,
    {
        if has_permission(modes[i], 0o111) {
            let path = candidates[i].clone();
            assert(path@ == candidates@[i as int]@ && permits(modes@[i as int], 0o111));
            return Some(path);
        }
        i += 1;
    }
    None
}

/// A file has a permission exactly if it could be opened and one of the wanted bits is set.
pub proof fn law_permissions_are_bits(bits: u32, bitflag: u32)
    ensures
        !permits(None, bitflag),
        permits(Some(bits), bitflag) <==> bits & bitflag != 0,
{
}

/// A letter and its capital are the same but for case, and nothing else is.
proof fn lemma_lower(c: char)
    ensures
        lower(c) == 't' <==> c == 't' || c == 'T',
        lower(c) == 'r' <==> c == 'r' || c == 'R',
        lower(c) == 'u' <==> c == 'u' || c == 'U',
        lower(c) == 'e' <==> c == 'e' || c == 'E',
        lower(c) == 'f' <==> c == 'f' || c == 'F',
        lower(c) == 'a' <==> c == 'a' || c == 'A',
        lower(c) == 'l' <==> c == 'l' || c == 'L',
        lower(c) == 's' <==> c == 's' || c == 'S',
{
}

/// A setting of `true` or `1` answers yes, one of `false` or `0` no, where the case of letters does
/// not count. Any other setting, and none, leaves questions open.
pub proof fn law_settings_mean_answers(s: Seq<char>)
    ensures
        automatic(None) is None,
        automatic(Some(s)) == Some(true) <==> s == "1"@ || (s.len() == 4 && (s[0] == 't' || s[0]
            == 'T') && (s[1] == 'r' || s[1] == 'R') && (s[2] == 'u' || s[2] == 'U') && (s[3] == 'e'
            || s[3] == 'E')),
        automatic(Some(s)) == Some(false) <==> s == "0"@ || (s.len() == 5 && (s[0] == 'f' || s[0]
            == 'F') && (s[1] == 'a' || s[1] == 'A') && (s[2] == 'l' || s[2] == 'L') && (s[3] == 's'
            || s[3] == 'S') && (s[4] == 'e' || s[4] == 'E')),
{
    reveal_strlit("true");
    reveal_strlit("false");
    reveal_strlit("1");
    reveal_strlit("0");
    let yes = "true"@;
    let no = "false"@;
    assert(yes.len() == 4 && yes[0] == 't' && yes[1] == 'r' && yes[2] == 'u' && yes[3] == 'e');
    assert(no.len() == 5 && no[0] == 'f' && no[1] == 'a' && no[2] == 'l' && no[3] == 's' && no[4]
        == 'e');
    assert("1"@[0] == '1' && "0"@[0] == '0' && "1"@.len() == 1 && "0"@.len() == 1);
    if s.len() == 4 {
        lemma_lower(s[0]);
        lemma_lower(s[1]);
        lemma_lower(s[2]);
        lemma_lower(s[3]);
        lemma_lower('t');
        lemma_lower('r');
        lemma_lower('u');
        lemma_lower('e');
        assert(same_but_case(s, yes) <==> lower(s[0]) == 't' && lower(s[1]) == 'r' && lower(s[2])
            == 'u' && lower(s[3]) == 'e') by {
            if same_but_case(s, yes) {
                assert(lower(s[0]) == lower(yes[0]) && lower(s[1]) == lower(yes[1]) && lower(s[2])
                    == lower(yes[2]) && lower(s[3]) == lower(yes[3]));
            }
        }
    }
    if s.len() == 5 {
        lemma_lower(s[0]);
        lemma_lower(s[1]);
        lemma_lower(s[2]);
        lemma_lower(s[3]);
        lemma_lower(s[4]);
        lemma_lower('f');
        lemma_lower('a');
        lemma_lower('l');
        lemma_lower('s');
        lemma_lower('e');
        assert(same_but_case(s, no) <==> lower(s[0]) == 'f' && lower(s[1]) == 'a' && lower(s[2])
            == 'l' && lower(s[3]) == 's' && lower(s[4]) == 'e') by {
            if same_but_case(s, no) {
                assert(lower(s[0]) == lower(no[0]) && lower(s[1]) == lower(no[1]) && lower(s[2])
                    == lower(no[2]) && lower(s[3]) == lower(no[3]) && lower(s[4]) == lower(no[4]));
            }
        }
    }
}

/// Where no setting answers, someone is asked if there is someone, and else the default counts.
pub proof fn law_open_questions_are_asked(setting: Option<Seq<char>>, yes_default: bool)
    requires
        automatic(setting) is None,
    ensures
        asking(setting, true, yes_default) == Asking::Dialog,
        asking(setting, false, yes_default) == Asking::Answered(yes_default),
{
}

/// The dialog offers yes and no, the default first.
pub proof fn law_default_is_offered_first()
    ensures
        label(true, true) == "Yes"@,
        label(true, false) == "No"@,
        label(false, true) == "No"@,
        label(false, false) == "Yes"@,
        choice_answer(true, true),
        !choice_answer(true, false),
        !choice_answer(false, true),
        choice_answer(false, false),
{
}

/// The administrator is served by the systemd of the system, others by their own.
pub proof fn law_users_have_their_own_systemd()
    ensures
        systemctl_words(true) == seq!["systemctl"@],
        systemctl_words(false) == seq!["systemctl"@, "--user"@],
{
}

/// A command that is a path lies where it says. Any other is looked for in the directories of the
/// search path, from the first to the last; without a search path it is nowhere.
pub proof fn law_commands_are_looked_for_in_order(
    cmd: Seq<char>,
    dirs: Seq<char>,
    more: Seq<char>,
    dir: Seq<char>,
)
    requires
        !dir.contains(':'),
        dir.len() > 0,
        dir[dir.len() - 1] != '/',
    ensures
        cmd.contains('/') ==> command_places(cmd, Some(dirs)) == seq![cmd] && command_places(
            cmd,
            None,
        ) == seq![cmd],
        !cmd.contains('/') ==> command_places(cmd, None).len() == 0,
        !cmd.contains('/') ==> command_places(cmd, Some(dir)) == seq![dir + "/"@ + cmd],
        !cmd.contains('/') ==> command_places(cmd, Some(dirs + ":"@ + more)) == command_places(
            cmd,
            Some(dirs),
        ) + command_places(cmd, Some(more)),
{
    reveal_strlit("/");
    reveal_strlit(":");
    assert("/"@[0] == '/' && ":"@[0] == ':');
    text::law_holds_characters(cmd, "/"@);
    text::law_holds_characters(dir, ":"@);
    text::lemma_pieces_concat(dirs, ":"@, more);
    assert(text::pieces(dir, ":"@) =~= seq![dir]);
    if !cmd.contains('/') {
        if cmd.len() > 0 {
            assert(cmd.contains(cmd[0]));
        }
        paths::law_path_is_put_behind_directory(dir, cmd);
        assert(command_places(cmd, Some(dir)) =~= seq![dir + "/"@ + cmd]);
        assert(command_places(cmd, Some(dirs + ":"@ + more)) =~= command_places(cmd, Some(dirs))
            + command_places(cmd, Some(more)));
    }
}

} // verus!
