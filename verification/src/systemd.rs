//! Generation of systemd service and timer units.
use crate::formats::{self, Duplicate, Ini, IniFiles, Section};
use crate::text;
use vstd::prelude::*;
#[allow(unused_imports)]
use crate::formats::{FilesView, IniView, SectionView};

verus! {

/// The service unit made of a declaration: all sections but `Timer`, with the `Service` defaults.
pub open spec fn service_file(unit: IniView) -> IniView {
    let base = unit.remove("Timer"@);
    let own = formats::section_of(base, "Service"@);
    let typed = if unit.contains_key("Timer"@) && !own.contains_key("Type"@) {
        own.insert("Type"@, "oneshot"@)
    } else {
        own
    };
    base.insert(
        "Service"@,
        typed.insert("StandardOutput"@, "journal"@).insert("StandardError"@, "journal"@),
    )
}

/// The description of a timer: its own, or one made of the unit's name.
pub open spec fn timer_description(name: Seq<char>, timer: SectionView) -> Seq<char> {
    if timer.contains_key("Description"@) {
        timer["Description"@]
    } else {
        "Timer for "@ + name
    }
}

/// The timer unit made of the `Timer` section of the declaration `name`.
pub open spec fn timer_file(name: Seq<char>, timer: SectionView) -> IniView {
    Map::empty().insert(
        "Unit"@,
        Map::empty().insert("Description"@, timer_description(name, timer)),
    ).insert(
        "Timer"@,
        timer.remove("Description"@).insert("Unit"@, name + ".service"@),
    ).insert("Install"@, Map::empty().insert("WantedBy"@, "timers.target"@))
}

/// What stands before `suffix` in `name`.
pub open spec fn stem(name: Seq<char>, suffix: Seq<char>) -> Seq<char> {
    name.take(name.len() - suffix.len())
}

/// `file` is the service of one of `configs`.
pub open spec fn is_service(configs: FilesView, file: Seq<char>) -> bool {
    text::ends(file, ".service"@) && configs.contains_key(stem(file, ".service"@))
}

/// `file` is the timer of one of `configs`.
pub open spec fn is_timer(configs: FilesView, file: Seq<char>) -> bool {
    &&& text::ends(file, ".timer"@)
    &&& configs.contains_key(stem(file, ".timer"@))
    &&& configs[stem(file, ".timer"@)].contains_key("Timer"@)
}

/// The unit files made of all declarations.
pub open spec fn systemd_files(configs: FilesView) -> FilesView {
    Map::new(
        |file: Seq<char>| is_service(configs, file) || is_timer(configs, file),
        |file: Seq<char>|
            if is_service(configs, file) {
                service_file(configs[stem(file, ".service"@)])
            } else {
                timer_file(stem(file, ".timer"@), configs[stem(file, ".timer"@)]["Timer"@])
            },
    )
}

/// A suffix can be taken off again.
proof fn lemma_stem(name: Seq<char>, suffix: Seq<char>)
    ensures
        text::ends(name + suffix, suffix),
        stem(name + suffix, suffix) == name,
{
    let whole = name + suffix;
    assert(whole.skip(whole.len() - suffix.len()) =~= suffix);
    assert(whole.take(whole.len() - suffix.len()) =~= name);
}

/// A name with a suffix is its stem and the suffix.
proof fn lemma_unstem(file: Seq<char>, suffix: Seq<char>)
    requires
        text::ends(file, suffix),
    ensures
        stem(file, suffix) + suffix == file,
{
    assert(stem(file, suffix) + suffix =~= file);
}

/// No name ends both in `.service` and in `.timer`.
proof fn lemma_suffixes_differ(file: Seq<char>)
    ensures
        !(text::ends(file, ".service"@) && text::ends(file, ".timer"@)),
{
    reveal_strlit(".service");
    reveal_strlit(".timer");
    if text::ends(file, ".service"@) && text::ends(file, ".timer"@) {
        let n = file.len();
        assert(file[n - 1] == file.skip(n - 8)[7]);
        assert(file[n - 1] == file.skip(n - 6)[5]);
        assert(".service"@[7] == 'e' && ".timer"@[5] == 'r');
    }
}

/// One more declaration adds its service, and its timer where it has one.
proof fn lemma_one_more(configs: FilesView, name: Seq<char>, unit: IniView)
    requires
        !configs.contains_key(name),
    ensures
        systemd_files(configs.insert(name, unit)) == ({
            let served = systemd_files(configs).insert(name + ".service"@, service_file(unit));
            if unit.contains_key("Timer"@) {
                served.insert(name + ".timer"@, timer_file(name, unit["Timer"@]))
            } else {
                served
            }
        }),
{
    let more = configs.insert(name, unit);
    let service = name + ".service"@;
    let timer = name + ".timer"@;
    lemma_stem(name, ".service"@);
    lemma_stem(name, ".timer"@);
    lemma_suffixes_differ(service);
    lemma_suffixes_differ(timer);
    let served = systemd_files(configs).insert(service, service_file(unit));
    let goal = if unit.contains_key("Timer"@) {
        served.insert(timer, timer_file(name, unit["Timer"@]))
    } else {
        served
    };
    assert forall|file: Seq<char>|
        #![trigger systemd_files(more).contains_key(file)]
        #![trigger goal.contains_key(file)]
        systemd_files(more).contains_key(file) == goal.contains_key(file) && (goal.contains_key(file)
            ==> systemd_files(more)[file] == goal[file]) by {
        lemma_suffixes_differ(file);
        if text::ends(file, ".service"@) {
            lemma_unstem(file, ".service"@);
        }
        if text::ends(file, ".timer"@) {
            lemma_unstem(file, ".timer"@);
        }
    }
    assert(systemd_files(more) =~= goal);
}

/// The timer unit for the `Timer` section of the declaration `name`.
fn timer_unit(name: &str, timer: &Section) -> (r: Ini)
    ensures
        r@ == timer_file(name@, timer@),
{
    let mut rest = timer.copy();
    let description = match rest.remove("Description") {
        Some(text) => text,
        None => "Timer for ".to_owned().concat(name),
    };
    rest.insert("Unit".to_owned(), name.to_owned().concat(".service"));
    let mut unit = Section::new();
    unit.insert("Description".to_owned(), description);
    let mut install = Section::new();
    install.put("WantedBy", "timers.target");
    let mut r = Ini::new();
    r.insert("Unit".to_owned(), unit);
    r.insert("Timer".to_owned(), rest);
    r.insert("Install".to_owned(), install);
    r
}

/// Turns each declaration into a service unit, and into a timer unit beside it where the
/// declaration has a `Timer` section.
pub fn process_systemd(configs: IniFiles) -> (r: IniFiles)
    ensures
        r@ == systemd_files(configs@),
{
    let mut out = IniFiles::new();
    let n: usize = configs.0.len();
    let ghost names = configs.0.names();
    let ghost mut done: FilesView = Map::empty();
    assert(out@ =~= systemd_files(done));
    let mut i: usize = 0;
    while i < n
        invariant
            i <= n == names.len(),
            names == configs.0.names(),
            configs.0.is_whole(),
            forall|k: Seq<char>| #[trigger]
                done.contains_key(k) <==> names.take(i as int).contains(k),
            forall|k: Seq<char>| #[trigger] done.contains_key(k) ==> done[k] == configs@[k],
            out@ == systemd_files(done),
        decreases n - i,
    {
        let name = configs.0.name_at(i);
        let unit = configs.0.value_at(i);
        let mut service = unit.copy();
        let timer = service.0.remove("Timer");
        let mut section = service.section("Service");
        if timer.is_some() && !section.contains_key("Type") {
            section.put("Type", "oneshot");
        }
        section.put("StandardOutput", "journal");
        section.put("StandardError", "journal");
        service.insert("Service".to_owned(), section);
        out.insert(name.clone().concat(".service"), service);
        if let Some(content) = timer {
            out.insert(name.clone().concat(".timer"), timer_unit(name.as_str(), &content));
        }
        proof {
            let before = names.take(i as int);
            let after = names.take(i + 1);
            if before.contains(name@) {
                let j = before.index_of(name@);
                assert(names[j] == names[i as int]);
            }
            lemma_one_more(done, name@, unit@);
            let grown = done.insert(name@, unit@);
            assert forall|k: Seq<char>| #[trigger] grown.contains_key(k) <==> after.contains(k) by {
                assert(after =~= before.push(name@));
                if before.contains(k) {
                    assert(after[before.index_of(k)] == k);
                }
                assert(after[i as int] == name@);
                if after.contains(k) && k != name@ {
                    assert(before[after.index_of(k)] == k);
                }
            }
            done = grown;
        }
        i += 1;
    }
    proof {
        assert(names.take(n as int) =~= names);
        assert(done =~= configs@);
    }
    out
}

/// Each declaration gives its service. It gives a timer beside it exactly if it has a `Timer`
/// section.
pub proof fn law_declaration_gives_units(configs: FilesView, name: Seq<char>)
    ensures
        systemd_files(configs).contains_key(name + ".service"@) == configs.contains_key(name),
        configs.contains_key(name) ==> systemd_files(configs)[name + ".service"@] == service_file(
            configs[name],
        ),
        systemd_files(configs).contains_key(name + ".timer"@) == (configs.contains_key(name)
            && configs[name].contains_key("Timer"@)),
        configs.contains_key(name) && configs[name].contains_key("Timer"@) ==> systemd_files(
            configs,
        )[name + ".timer"@] == timer_file(name, configs[name]["Timer"@]),
{
    lemma_stem(name, ".service"@);
    lemma_stem(name, ".timer"@);
    lemma_suffixes_differ(name + ".service"@);
    lemma_suffixes_differ(name + ".timer"@);
}

/// Every file comes from a declaration: it is its service or its timer.
pub proof fn law_units_come_from_declarations(configs: FilesView, file: Seq<char>)
    requires
        systemd_files(configs).contains_key(file),
    ensures
        exists|name: Seq<char>|
            #![trigger configs.contains_key(name)]
            configs.contains_key(name) && (file == name + ".service"@ || file == name + ".timer"@),
{
    if is_service(configs, file) {
        lemma_unstem(file, ".service"@);
    } else {
        lemma_unstem(file, ".timer"@);
    }
}

/// A service logs to the journal, has no `Timer` section, is of type `oneshot` if a timer starts it
/// and it names no type of its own, and otherwise says what its declaration says.
pub proof fn law_service_keeps_declaration(unit: IniView, section: Seq<char>, key: Seq<char>)
    ensures
        !service_file(unit).contains_key("Timer"@),
        service_file(unit)["Service"@].contains_pair("StandardOutput"@, "journal"@),
        service_file(unit)["Service"@].contains_pair("StandardError"@, "journal"@),
        unit.contains_key("Timer"@) && !formats::section_of(unit, "Service"@).contains_key("Type"@)
            ==> service_file(unit)["Service"@].contains_pair("Type"@, "oneshot"@),
        unit.contains_key(section) && section != "Timer"@ && unit[section].contains_key(key) && !(
        section == "Service"@ && (key == "StandardOutput"@ || key == "StandardError"@))
            ==> service_file(unit).contains_key(section) && service_file(
            unit,
        )[section].contains_pair(key, unit[section][key]),
{
    reveal_strlit("Timer");
    reveal_strlit("Service");
    reveal_strlit("Type");
    reveal_strlit("StandardOutput");
    reveal_strlit("StandardError");
    assert("Timer"@.len() != "Service"@.len());
    assert("StandardOutput"@.len() != "StandardError"@.len());
    assert("Type"@.len() != "StandardError"@.len());
    assert("Type"@.len() != "StandardOutput"@.len());
}

/// A timer starts the service made of the same declaration, is started by the timers target, and
/// keeps the entries of the `Timer` section; the description stands in its `Unit` section.
pub proof fn law_timer_starts_its_service(name: Seq<char>, timer: SectionView, key: Seq<char>)
    ensures
        timer_file(name, timer)["Timer"@].contains_pair("Unit"@, name + ".service"@),
        timer_file(name, timer)["Install"@].contains_pair("WantedBy"@, "timers.target"@),
        timer_file(name, timer)["Unit"@].contains_pair(
            "Description"@,
            timer_description(name, timer),
        ),
        timer.contains_key(key) && key != "Description"@ && key != "Unit"@ ==> timer_file(
            name,
            timer,
        )["Timer"@].contains_pair(key, timer[key]),
{
    reveal_strlit("Timer");
    reveal_strlit("Unit");
    reveal_strlit("Install");
    assert("Timer"@.len() != "Install"@.len());
    assert("Unit"@.len() != "Install"@.len());
    assert("Timer"@.len() != "Unit"@.len());
}

/// The words of units are all different.
proof fn lemma_words_differ()
    ensures
        "Timer"@ != "Service"@,
        "Timer"@ != "Unit"@,
        "Timer"@ != "Install"@,
        "Unit"@ != "Install"@,
        "Unit"@ != "Description"@,
        "Type"@ != "StandardOutput"@,
        "Type"@ != "StandardError"@,
        "StandardOutput"@ != "StandardError"@,
{
    reveal_strlit("Timer");
    reveal_strlit("Service");
    reveal_strlit("Unit");
    reveal_strlit("Install");
    reveal_strlit("Description");
    reveal_strlit("Type");
    reveal_strlit("StandardOutput");
    reveal_strlit("StandardError");
    assert("Timer"@.len() == 5 && "Service"@.len() == 7 && "Unit"@.len() == 4 && "Install"@.len()
        == 7 && "Description"@.len() == 11);
    assert("Type"@.len() == 4 && "StandardOutput"@.len() == 14 && "StandardError"@.len() == 13);
}

/// A service has the sections of its declaration but for `Timer`, and a `Service` section in any
/// case. Sections other than `Service` say exactly what the declaration says.
pub proof fn law_service_has_declared_sections(unit: IniView, section: Seq<char>)
    ensures
        service_file(unit).contains_key(section) <==> section == "Service"@ || (
        unit.contains_key(section) && section != "Timer"@),
        section != "Service"@ && service_file(unit).contains_key(section) ==> service_file(
            unit,
        )[section] == unit[section],
{
    lemma_words_differ();
}

/// The `Service` section of a service has the declared keys, the two for logging and, only where
/// the declaration has a `Timer` section, `Type`. Declared values stay, but logging goes to the
/// journal; a type that is not declared is `oneshot`.
pub proof fn law_service_section_is_exact(unit: IniView, key: Seq<char>)
    ensures
        ({
            let done = service_file(unit)["Service"@];
            let declared = unit.contains_key("Service"@) && unit["Service"@].contains_key(key);
            let logs = key == "StandardOutput"@ || key == "StandardError"@;
            let timed = unit.contains_key("Timer"@) && key == "Type"@;
            &&& done.contains_key(key) <==> declared || logs || timed
            &&& logs ==> done[key] == "journal"@
            &&& declared && !logs ==> done[key] == unit["Service"@][key]
            &&& timed && !declared ==> done[key] == "oneshot"@
        }),
{
    lemma_words_differ();
}

/// A declaration without a `Timer` section gives a service that has the declared keys and the two
/// for logging, and no others: a service that keeps running gets no type.
pub proof fn law_untimed_service_gets_no_type(unit: IniView)
    requires
        !unit.contains_key("Timer"@),
    ensures
        unit.contains_key("Service"@) ==> service_file(unit)["Service"@].dom()
            == unit["Service"@].dom().insert("StandardOutput"@).insert("StandardError"@),
        !unit.contains_key("Service"@) ==> service_file(unit)["Service"@].dom()
            == Set::empty().insert("StandardOutput"@).insert("StandardError"@),
{
    lemma_words_differ();
    let done = service_file(unit)["Service"@].dom();
    if unit.contains_key("Service"@) {
        assert(done =~= unit["Service"@].dom().insert("StandardOutput"@).insert("StandardError"@));
    } else {
        assert(done =~= Set::empty().insert("StandardOutput"@).insert("StandardError"@));
    }
}

/// Whether a declaration has a `Timer` section bears on nothing of its service but the type.
pub proof fn law_timer_bears_on_type_alone(
    unit: IniView,
    timer: SectionView,
    section: Seq<char>,
    key: Seq<char>,
)
    requires
        !unit.contains_key("Timer"@),
        !(section == "Service"@ && key == "Type"@),
    ensures
        service_file(unit.insert("Timer"@, timer)).contains_key(section) == service_file(
            unit,
        ).contains_key(section),
        service_file(unit).contains_key(section) ==> service_file(
            unit.insert("Timer"@, timer),
        )[section].contains_key(key) == service_file(unit)[section].contains_key(key),
        service_file(unit).contains_key(section) && service_file(unit)[section].contains_key(key)
            ==> service_file(unit.insert("Timer"@, timer))[section][key] == service_file(
            unit,
        )[section][key],
{
    lemma_words_differ();
    assert(unit.insert("Timer"@, timer).remove("Timer"@) =~= unit.remove("Timer"@));
}

/// A timer has three sections. `Unit` holds the description alone: the one in the `Timer` section,
/// or one made of the name of the declaration. `Install` holds the timers target alone. `Timer`
/// holds what the declaration says but for the description, and the service that is started.
pub proof fn law_timer_is_exact(name: Seq<char>, timer: SectionView, section: Seq<char>, key: Seq<char>)
    ensures
        timer_file(name, timer).contains_key(section) <==> section == "Unit"@ || section
            == "Timer"@ || section == "Install"@,
        timer_file(name, timer)["Unit"@].contains_key(key) <==> key == "Description"@,
        timer.contains_key("Description"@) ==> timer_file(name, timer)["Unit"@]["Description"@]
            == timer["Description"@],
        !timer.contains_key("Description"@) ==> timer_file(name, timer)["Unit"@]["Description"@]
            == "Timer for "@ + name,
        timer_file(name, timer)["Install"@].contains_key(key) <==> key == "WantedBy"@,
        timer_file(name, timer)["Install"@]["WantedBy"@] == "timers.target"@,
        timer_file(name, timer)["Timer"@].contains_key(key) <==> key == "Unit"@ || (
        timer.contains_key(key) && key != "Description"@),
        timer_file(name, timer)["Timer"@]["Unit"@] == name + ".service"@,
        timer.contains_key(key) && key != "Description"@ && key != "Unit"@ ==> timer_file(
            name,
            timer,
        )["Timer"@][key] == timer[key],
{
    lemma_words_differ();
}

} // verus!
