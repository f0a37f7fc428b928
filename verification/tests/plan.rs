use slate::formats::{Ini, IniFiles};
use slate::plan::{
    check_units, compose_dir, compose_path, delivery, log_level, overwrite_question, plan,
    prepare_input, template_call, template_step, use_rendering, Delivery, FileCmd,
    InputError, LogLevel, NoUnits, Opts, Plan, PlanError, Prepared,
};
use slate::variants::{FromVariant, InferError, ToVariant};

fn opts(input: Option<&str>, output: Option<&str>) -> Opts {
    Opts {
        file_cmd: FileCmd {
            input: input.map(str::to_string),
            output: output.map(str::to_string),
            from: None,
            to: None,
            tera: false,
            no_tera: true,
        },
        verbose: 0,
    }
}

#[test]
fn formats_are_inferred_from_paths() {
    assert_eq!(
        plan(&opts(Some("a/alacritty.yml"), Some("b/alacritty.toml"))),
        Ok(Plan { from: FromVariant::Yaml, to: ToVariant::Toml, tera: false })
    );
    assert_eq!(
        plan(&opts(Some("a.service"), None)),
        Ok(Plan { from: FromVariant::Toml, to: ToVariant::Toml, tera: false })
    );
    assert_eq!(
        plan(&opts(Some("a.json"), Some("out"))),
        Ok(Plan { from: FromVariant::Json, to: ToVariant::Json, tera: false })
    );
}

#[test]
fn given_formats_win() {
    let mut given = opts(Some("a.json"), Some("b.toml"));
    given.file_cmd.from = Some(FromVariant::Yaml);
    given.file_cmd.to = Some(ToVariant::Quadlet);
    assert_eq!(
        plan(&given),
        Ok(Plan { from: FromVariant::Yaml, to: ToVariant::Quadlet, tera: false })
    );
    let mut stdin = opts(None, None);
    stdin.file_cmd.from = Some(FromVariant::Ron);
    assert_eq!(
        plan(&stdin),
        Ok(Plan { from: FromVariant::Ron, to: ToVariant::Ron, tera: false })
    );
}

#[test]
fn templates_are_recognized() {
    assert_eq!(
        plan(&opts(Some("x/sysd.yaml.tera"), None)),
        Ok(Plan { from: FromVariant::Yaml, to: ToVariant::Yaml, tera: true })
    );
    let mut flagged = opts(Some("a.json"), None);
    flagged.file_cmd.tera = true;
    assert!(plan(&flagged).unwrap().tera);
    let mut stdin = opts(None, None);
    stdin.file_cmd.from = Some(FromVariant::Json);
    stdin.file_cmd.tera = true;
    assert!(plan(&stdin).unwrap().tera);
}

#[test]
fn formats_that_are_not_known_are_errors() {
    let no_format = plan(&opts(None, Some("a.json"))).unwrap_err();
    assert_eq!(no_format, PlanError::NoFormat);
    assert_eq!(
        no_format.message(),
        "Input format must be specified with --from when reading from stdin"
    );
    for path in ["noext", "x.tera", ".tera"] {
        let e = plan(&opts(Some(path), None)).unwrap_err();
        assert_eq!(e, PlanError::Infer(InferError::NoExtension));
        assert_eq!(e.message(), InferError::NoExtension.message());
    }
    for path in ["a.txt", "a.txt.tera"] {
        let e = plan(&opts(Some(path), None)).unwrap_err();
        assert_eq!(e, PlanError::Infer(InferError::UnknownExtension));
        assert_eq!(e.message(), InferError::UnknownExtension.message());
    }
}

fn rendered(input: &[u8], verbose: u8) -> Result<Prepared, InputError> {
    let rendering = template_step(input, true)?
        .map(|(template, autoescape)| {
            tera::Tera::one_off(template, &tera::Context::new(), autoescape)
        });
    prepare_input(input.to_vec(), rendering, verbose)
}

#[test]
fn templates_are_handed_over_as_they_are() {
    assert_eq!(template_call("a: {{ 'ä' }}".as_bytes()).unwrap(), ("a: {{ 'ä' }}", true));
    assert!(template_call(&[0xff]).is_err());
    assert_eq!(template_step(b"{{ x }}", true).unwrap(), Some(("{{ x }}", true)));
    assert_eq!(template_step(b"{{ x }}", false).unwrap(), None);
    assert_eq!(template_step(&[0xff], false).unwrap(), None);
    assert!(matches!(template_step(&[0xff], true), Err(InputError::NotUtf8(_))));
}

#[test]
fn templates_are_rendered() {
    let quiet = rendered(b"a: {{ 1 + 1 }}{{ \"<\" }}", 0).unwrap();
    assert_eq!(quiet.bytes, b"a: 2&lt;");
    assert!(quiet.report.is_none());
    let shown = rendered("{{ 'ä' }}".as_bytes(), 1).unwrap();
    assert_eq!(shown.bytes, "ä".as_bytes());
    assert_eq!(shown.report.unwrap(), "# Tera output\nä\n\n---\n\n");
}

#[test]
fn other_input_is_left_alone() {
    let same = prepare_input(vec![0xff, b'{', b'{'], None, 3).unwrap();
    assert_eq!(same.bytes, vec![0xff, b'{', b'{']);
    assert!(same.report.is_none());
}

#[test]
fn broken_templates_are_errors() {
    assert!(matches!(rendered(&[0xff], 0), Err(InputError::NotUtf8(_))));
    assert!(matches!(rendered(b"{{ missing }}", 0), Err(InputError::Template(_))));
    assert!(matches!(rendered(b"{% if", 0), Err(InputError::Template(_))));
}

#[test]
fn renderings_are_used() {
    let quiet = use_rendering(Ok("x".to_string()), 0).unwrap();
    assert_eq!(quiet.bytes, b"x");
    assert!(quiet.report.is_none());
    assert_eq!(
        use_rendering(Ok("x".to_string()), 2).unwrap().report.unwrap(),
        "# Tera output\nx\n\n---\n\n"
    );
    assert!(matches!(
        use_rendering(Err(tera::Error::msg("broken")), 0),
        Err(InputError::Template(_))
    ));
}

#[test]
fn units_are_needed() {
    assert_eq!(check_units(&IniFiles::new()), Err(NoUnits));
    assert_eq!(NoUnits.message(), "Input for Systemd resulted in no units to process.");
    let mut units = IniFiles::new();
    units.insert("a".to_string(), Ini::new());
    assert_eq!(check_units(&units), Ok(()));
}

#[test]
fn compose_files_have_a_directory() {
    assert_eq!(compose_dir(Some("compose.yaml")), Some("."));
    assert_eq!(compose_dir(Some("examples/compose.yaml")), Some("examples"));
    assert_eq!(compose_dir(Some("/compose.yaml")), Some("/"));
    assert_eq!(compose_dir(Some("/")), None);
    assert_eq!(compose_dir(None), None);
    assert_eq!(compose_path("out/"), "out/compose.yaml");
    assert_eq!(compose_path("out"), "out/compose.yaml");
    assert_eq!(
        overwrite_question("out/compose.yaml"),
        "File 'out/compose.yaml' already exists. Overwrite?"
    );
}

#[test]
fn units_are_activated_where_someone_can_be_asked() {
    assert_eq!(delivery(false, true), Delivery::Print);
    assert_eq!(delivery(false, false), Delivery::Print);
    assert_eq!(delivery(true, true), Delivery::WriteAndActivate);
    assert_eq!(delivery(true, false), Delivery::Write);
}

#[test]
fn logging_depends_on_build_and_verbosity() {
    assert_eq!(log_level(true, true, 3), None);
    assert_eq!(log_level(false, true, 0), Some(LogLevel::Debug));
    assert_eq!(log_level(false, false, 0), Some(LogLevel::Info));
    assert_eq!(log_level(false, false, 1), Some(LogLevel::Info));
    assert_eq!(log_level(false, false, 2), Some(LogLevel::Debug));
    assert_eq!(log_level(false, false, 3), Some(LogLevel::Trace));
    assert_eq!(log_level(false, false, 255), Some(LogLevel::Trace));
}
