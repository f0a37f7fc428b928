//! What a run does: the command line, the formats read and written, the template step, and where
//! the result goes.
use crate::formats::IniFiles;
use crate::outside::text_from_utf8;
use crate::paths::{self, extension, inner_extension, join_path, parent};
use crate::text::{self, same};
use crate::variants::{self, FromVariant, InferError, ToVariant};
use vstd::prelude::*;

verus! {

/// The command line.
#[derive(Debug)]
pub struct Opts {
    pub file_cmd: FileCmd,
    /// How often more output was asked for.
    pub verbose: u8,
}

/// The files and formats on the command line.
#[derive(Debug)]
pub struct FileCmd {
    /// The file to read; standard input without one.
    pub input: Option<String>,
    /// The file to write, or the directory for units; standard output without one.
    pub output: Option<String>,
    pub from: Option<FromVariant>,
    pub to: Option<ToVariant>,
    /// The input is a template.
    pub tera: bool,
    pub no_tera: bool,
}

/// What a run reads and writes.
#[derive(Debug, Clone, Copy, PartialEq, Eq, Structural)]
pub struct Plan {
    pub from: FromVariant,
    pub to: ToVariant,
    /// The input is a template, to be rendered first.
    pub tera: bool,
}

/// Why there is nothing to run.
#[derive(Debug, Clone, Copy, PartialEq, Eq, Structural)]
pub enum PlanError {
    /// Standard input is to be read, and no format is given.
    NoFormat,
    /// The format of the file to read could not be inferred.
    Infer(InferError),
}

impl PlanError {
    /// The message for the user.
    pub fn message(&self) -> (r: String)
        ensures
            match self {
                PlanError::NoFormat => r@
                    == "Input format must be specified with --from when reading from stdin"@,
                PlanError::Infer(InferError::NoExtension) => r@
                    == "Extension not found, the type of the file could not be inferred."@,
                PlanError::Infer(InferError::UnknownExtension) => r@
                    == "Type of the file could not be inferred"@,
            },
    {
        match self {
            PlanError::NoFormat => {
                "Input format must be specified with --from when reading from stdin".to_owned()
            },
            PlanError::Infer(e) => e.message(),
        }
    }
}

/// The path is that of a template.
pub open spec fn is_template(path: Seq<char>) -> bool {
    paths::extension_of(path) == Some("tera"@)
}

/// The format read from a file: that of its extension, or of the one before `.tera`.
pub open spec fn file_format(path: Seq<char>) -> Result<FromVariant, InferError> {
    if is_template(path) {
        variants::inferred(paths::inner_extension_of(path))
    } else {
        variants::inferred(paths::extension_of(path))
    }
}

/// The format read: the one asked for, or that of the file.
pub open spec fn source_format(cmd: FileCmd) -> Result<FromVariant, PlanError> {
    match (cmd.from, cmd.input) {
        (Some(from), _) => Ok(from),
        (None, None) => Err(PlanError::NoFormat),
        (None, Some(path)) => match file_format(path@) {
            Ok(from) => Ok(from),
            Err(e) => Err(PlanError::Infer(e)),
        },
    }
}

/// The format written: the one asked for, or that of the file to write, or the one read.
pub open spec fn target_format(cmd: FileCmd, from: FromVariant) -> ToVariant {
    let of_output = match cmd.output {
        Some(path) => variants::to_path(path@),
        None => None,
    };
    match (cmd.to, of_output) {
        (Some(to), _) => to,
        (None, Some(to)) => to,
        (None, None) => variants::same_format(from),
    }
}

/// The input is to be rendered as a template.
pub open spec fn wants_tera(cmd: FileCmd) -> bool {
    cmd.tera || (cmd.input matches Some(path) && is_template(path@))
}

/// Decides what is read and written.
pub fn plan(opts: &Opts) -> (r: Result<Plan, PlanError>)
    ensures
        match source_format(opts.file_cmd) {
            Ok(from) => r == Ok::<Plan, PlanError>(
                (Plan {
                    from,
                    to: target_format(opts.file_cmd, from),
                    tera: wants_tera(opts.file_cmd),
                }),
            ),
            Err(e) => r == Err::<Plan, PlanError>(e),
        },
{
    let cmd = &opts.file_cmd;
    let template = match &cmd.input {
        Some(path) => match extension(path.as_str()) {
            Some(ext) => same(ext, "tera"),
            None => false,
        },
        None => false,
    };
    let from = match cmd.from {
        Some(from) => from,
        None => match &cmd.input {
            Some(path) => {
                let ext = if template {
                    inner_extension(path.as_str())
                } else {
                    extension(path.as_str())
                };
                match FromVariant::from_ext(ext) {
                    Ok(from) => from,
                    Err(e) => {
                        return Err(PlanError::Infer(e));
                    },
                }
            },
            None => {
                return Err(PlanError::NoFormat);
            },
        },
    };
    let to = match cmd.to {
        Some(to) => to,
        None => {
            let of_output = match &cmd.output {
                Some(path) => ToVariant::from_path(path.as_str()),
                None => None,
            };
            match of_output {
                Some(to) => to,
                None => ToVariant::from(from),
            }
        },
    };
    Ok(Plan { from, to, tera: cmd.tera || template })
}

/// A format that is asked for is the one that is used.
pub proof fn law_given_formats_win(cmd: FileCmd, from: FromVariant, to: ToVariant)
    requires
        cmd.from == Some(from),
        cmd.to == Some(to),
    ensures
        source_format(cmd) == Ok::<FromVariant, PlanError>(from),
        target_format(cmd, from) == to,
{
}

/// Without a hint at another one, the format written is the one read.
pub proof fn law_format_is_kept(cmd: FileCmd, from: FromVariant)
    requires
        cmd.to is None,
        cmd.output matches Some(path) ==> variants::to_path(path@) is None,
    ensures
        target_format(cmd, from) == variants::same_format(from),
{
}

/// The last dot of a name before an extension without dots.
proof fn lemma_last_dot(head: Seq<char>, ext: Seq<char>)
    requires
        !ext.contains('.'),
    ensures
        text::last_index(head + "."@ + ext, '.') == head.len(),
    decreases ext.len(),
{
    reveal_strlit(".");
    let s = head + "."@ + ext;
    if ext.len() == 0 {
        assert(s.last() == '.');
    } else {
        let less = ext.drop_last();
        assert(ext.contains(ext.last()));
        assert forall|i: int| 0 <= i < less.len() implies less[i] != '.' by {
            assert(less[i] == ext[i]);
            assert(ext.contains(ext[i]));
        }
        lemma_last_dot(head, less);
        assert(s.drop_last() =~= head + "."@ + less);
        assert(s.last() == ext.last());
    }
}

/// A bare file name is its own name.
proof fn lemma_bare_name(name: Seq<char>)
    requires
        paths::is_plain(name),
    ensures
        paths::parts(name) == seq![name],
        paths::components(seq![name]) == seq![name],
        paths::name_of(name) == Some(name),
{
    reveal_strlit("/");
    text::lemma_find_bounds(name, "/"@);
    if let Some(i) = text::find(name, "/"@) {
        assert(name.subrange(i, i + 1)[0] == name[i]);
        assert(name.contains(name[i]));
    }
    let none = Seq::<Seq<char>>::empty();
    assert(paths::parts(name) =~= seq![name]);
    assert(seq![name].drop_last() =~= none);
    assert(paths::components(none) =~= none);
    assert(paths::components(seq![name]) =~= none.push(name));
    assert(none.push(name) =~= seq![name]);
    assert(seq![name].last() == name);
}

/// A file `stem.ext.tera` is rendered as a template, and then read in the format of `ext`.
pub proof fn law_template_has_inner_format(stem: Seq<char>, ext: Seq<char>)
    requires
        stem.len() > 0,
        ext.len() > 0,
        !stem.contains('/'),
        !ext.contains('/'),
        !ext.contains('.'),
    ensures
        is_template(stem + "."@ + ext + "."@ + "tera"@),
        file_format(stem + "."@ + ext + "."@ + "tera"@) == variants::inferred(Some(ext)),
{
    reveal_strlit(".");
    reveal_strlit("..");
    reveal_strlit("tera");
    let inner = stem + "."@ + ext;
    let path = inner + "."@ + "tera"@;
    assert forall|i: int| 0 <= i < inner.len() implies inner[i] != '/' by {
        if i < stem.len() {
            assert(inner[i] == stem[i]);
            assert(stem.contains(stem[i]));
        } else if i > stem.len() {
            assert(inner[i] == ext[i - stem.len() - 1]);
            assert(ext.contains(ext[i - stem.len() - 1]));
        }
    }
    assert forall|i: int| 0 <= i < path.len() implies path[i] != '/' by {
        if i < inner.len() {
            assert(path[i] == inner[i]);
        }
    }
    assert(inner.len() > 2 && path.len() > 2);
    assert(!"tera"@.contains('.'));
    lemma_last_dot(stem, ext);
    lemma_last_dot(inner, "tera"@);
    lemma_bare_name(path);
    lemma_bare_name(inner);
    assert(path.skip(inner.len() as int + 1) =~= "tera"@);
    assert(path.take(inner.len() as int) =~= inner);
    assert(inner.skip(stem.len() as int + 1) =~= ext);
    assert(seq![path].drop_last().push(inner) =~= seq![inner]);
}

/// A template is rendered: the input has the extension `tera`, or was said to be one.
pub proof fn law_templates_are_rendered(cmd: FileCmd)
    ensures
        cmd.tera ==> wants_tera(cmd),
        cmd.input matches Some(path) ==> is_template(path@) ==> wants_tera(cmd),
{
}

/// The input after the template step.
#[derive(Debug)]
pub struct Prepared {
    pub bytes: Vec<u8>,
    /// What is to be shown of the rendering.
    pub report: Option<String>,
}

/// Why the input could not be prepared.
#[derive(Debug)]
pub enum InputError {
    /// A template has to be text.
    NotUtf8(core::str::Utf8Error),
    /// The template could not be rendered.
    Template(tera::Error),
}

/// What is shown of a rendering.
pub open spec fn report_of(rendered: Seq<char>) -> Seq<char> {
    "# Tera output\n"@ + rendered + "\n\n---\n\n"@
}

/// The input is the rendering, which is shown if more output was asked for.
pub open spec fn is_prepared(p: Prepared, rendered: Seq<char>, verbose: u8) -> bool {
    &&& p.bytes@ == vstd::utf8::encode_utf8(rendered)
    &&& text::string_view(p.report) == (if verbose > 0 {
        Some(report_of(rendered))
    } else {
        None
    })
}

/// Goes on with the outcome of a rendering.
pub fn use_rendering(outcome: Result<String, tera::Error>, verbose: u8) -> (r: Result<
    Prepared,
    InputError,
>)
    ensures
        match outcome {
            Ok(rendered) => r matches Ok(p) && is_prepared(p, rendered@, verbose),
            Err(e) => r == Err::<Prepared, InputError>(InputError::Template(e)),
        },
{
    match outcome {
        Ok(rendered) => {
            let report = if verbose > 0 {
                Some(
                    "# Tera output\n".to_owned().concat(rendered.as_str()).concat("\n\n---\n\n"),
                )
            } else {
                None
            };
            Ok(Prepared { bytes: rendered.as_str().as_bytes_vec(), report })
        },
        Err(e) => Err(InputError::Template(e)),
    }
}

/// What is handed to the template engine for an input: its text, with the wish to escape what is
/// inserted. Fails exactly if the input is not UTF-8.
pub fn template_call<'a>(input: &'a [u8]) -> (r: Result<(&'a str, bool), core::str::Utf8Error>)
    ensures
        r is Ok <==> vstd::utf8::valid_utf8(input@),
        r matches Ok((template, autoescape)) ==> vstd::utf8::encode_utf8(template@) == input@
            && autoescape,
{
    match text_from_utf8(input) {
        Ok(template) => Ok((template, true)),
        Err(e) => Err(e),
    }
}

/// The input is to be rendered and cannot be, as it is not text.
pub open spec fn is_refused(input: Seq<u8>, tera: bool) -> bool {
    tera && !vstd::utf8::valid_utf8(input)
}

/// The template that is to be rendered for an input, and whether what is inserted is escaped.
pub open spec fn call_of(input: Seq<u8>, tera: bool) -> Option<(Seq<char>, bool)> {
    if tera && vstd::utf8::valid_utf8(input) {
        Some((vstd::utf8::decode_utf8(input), true))
    } else {
        None
    }
}

/// Decides what is handed to the template engine: nothing if the input is no template.
pub fn template_step<'a>(input: &'a [u8], tera: bool) -> (r: Result<
    Option<(&'a str, bool)>,
    InputError,
>)
    ensures
        match r {
            Ok(None) => !tera,
            Ok(Some((template, autoescape))) => call_of(input@, tera) == Some(
                (template@, autoescape),
            ),
            Err(e) => is_refused(input@, tera) && e is NotUtf8,
        },
        r is Err == is_refused(input@, tera),
{
    if !tera {
        return Ok(None);
    }
    match template_call(input) {
        Ok((template, autoescape)) => {
            proof {
                vstd::utf8::encode_utf8_decode_utf8(template@);
            }
            Ok(Some((template, autoescape)))
        },
        Err(e) => Err(InputError::NotUtf8(e)),
    }
}

/// What is converted: the input as it is if nothing was rendered, and else the rendering. None if
/// the rendering failed.
pub open spec fn converted(input: Seq<u8>, rendering: Option<Option<Seq<char>>>) -> Option<Seq<u8>> {
    match rendering {
        None => Some(input),
        Some(Some(rendered)) => Some(vstd::utf8::encode_utf8(rendered)),
        Some(None) => None,
    }
}

/// What the outcome of the template step says.
pub open spec fn rendering_view(rendering: Option<Result<String, tera::Error>>) -> Option<
    Option<Seq<char>>,
> {
    match rendering {
        None => None,
        Some(Ok(rendered)) => Some(Some(rendered@)),
        Some(Err(_)) => Some(None),
    }
}

/// Prepares the input. `rendering` is the outcome of the call that `template_step` asked for, if it
/// asked for one.
pub fn prepare_input(
    input: Vec<u8>,
    rendering: Option<Result<String, tera::Error>>,
    verbose: u8,
) -> (r: Result<Prepared, InputError>)
    ensures
        match r {
            Ok(p) => converted(input@, rendering_view(rendering)) == Some(p.bytes@),
            Err(e) => converted(input@, rendering_view(rendering)) is None && Some(
                Err::<String, tera::Error>(e->Template_0),
            ) == rendering && e is Template,
        },
        match (rendering, r) {
            (None, Ok(p)) => p.report is None,
            (Some(Ok(rendered)), Ok(p)) => is_prepared(p, rendered@, verbose),
            _ => true,
        },
{
    match rendering {
        None => Ok(Prepared { bytes: input, report: None }),
        Some(outcome) => use_rendering(outcome, verbose),
    }
}

/// What is converted is the rendering of the input if the input is a template, and else the input
/// itself. This holds whatever the template engine makes of the template that it is handed; if it
/// makes nothing, or if the template is not text, nothing is converted.
pub proof fn law_templates_are_converted_rendered(
    cmd: FileCmd,
    input: Seq<u8>,
    render: spec_fn((Seq<char>, bool)) -> Option<Seq<char>>,
)
    ensures
        is_refused(input, wants_tera(cmd)) == (wants_tera(cmd) && !vstd::utf8::valid_utf8(input)),
        !is_refused(input, wants_tera(cmd)) ==> converted(
            input,
            match call_of(input, wants_tera(cmd)) {
                Some(call) => Some(render(call)),
                None => None,
            },
        ) == (if wants_tera(cmd) {
            match render((vstd::utf8::decode_utf8(input), true)) {
                Some(rendered) => Some(vstd::utf8::encode_utf8(rendered)),
                None => None,
            }
        } else {
            Some(input)
        }),
{
}

/// There are no units to process.
#[derive(Debug, Clone, Copy, PartialEq, Eq, Structural)]
pub struct NoUnits;

impl NoUnits {
    /// The message for the user.
    pub fn message(&self) -> (r: String)
        ensures
            r@ == "Input for Systemd resulted in no units to process."@,
    {
        "Input for Systemd resulted in no units to process.".to_owned()
    }
}

/// Units are only processed if there are any.
pub fn check_units(units: &IniFiles) -> (r: Result<(), NoUnits>)
    ensures
        r is Err == (units.0.names().len() == 0),
{
    if units.0.len() == 0 {
        Err(NoUnits)
    } else {
        Ok(())
    }
}

/// The directory of a compose file; that of a bare file name is the current one.
pub open spec fn compose_dir_of(input: Option<Seq<char>>) -> Option<Seq<char>> {
    match input {
        Some(path) => match paths::parent_of(path) {
            Some(dir) => if dir.len() == 0 {
                Some("."@)
            } else {
                Some(dir)
            },
            None => None,
        },
        None => None,
    }
}

/// The directory of a compose file.
pub fn compose_dir<'a>(input: Option<&'a str>) -> (r: Option<&'a str>)
    ensures
        text::str_view(r) == compose_dir_of(text::str_view(input)),
{
    match input {
        Some(path) => match parent(path) {
            Some(dir) => if dir.is_empty() {
                Some(".")
            } else {
                Some(dir)
            },
            None => None,
        },
        None => None,
    }
}

/// Where the prepared compose file is written in an output directory.
pub fn compose_path(output_dir: &str) -> (r: String)
    ensures
        r@ == paths::path_in(output_dir@, "compose.yaml"@),
{
    join_path(output_dir, "compose.yaml")
}

/// The question whether to overwrite a file. Its default is yes.
pub fn overwrite_question(path: &str) -> (r: String)
    ensures
        r@ == "File '"@ + path@ + "' already exists. Overwrite?"@,
{
    "File '".to_owned().concat(path).concat("' already exists. Overwrite?")
}

/// Where units go.
#[derive(Debug, Clone, Copy, PartialEq, Eq, Structural)]
pub enum Delivery {
    /// To standard output.
    Print,
    /// To the output directory.
    Write,
    /// To the output directory, from which they are activated.
    WriteAndActivate,
}

/// Where units go: they are activated if they were written and someone can be asked.
pub open spec fn delivery_of(to_directory: bool, interactive: bool) -> Delivery {
    if !to_directory {
        Delivery::Print
    } else if interactive {
        Delivery::WriteAndActivate
    } else {
        Delivery::Write
    }
}

/// Decides where units go.
pub fn delivery(to_directory: bool, interactive: bool) -> (r: Delivery)
    ensures
        r == delivery_of(to_directory, interactive),
{
    if !to_directory {
        Delivery::Print
    } else if interactive {
        Delivery::WriteAndActivate
    } else {
        Delivery::Write
    }
}

/// How much is logged.
#[derive(Debug, Clone, Copy, PartialEq, Eq, Structural)]
pub enum LogLevel {
    Info,
    Debug,
    Trace,
}

/// Decides how much is logged. Nothing is decided where the environment does; a debug build logs
/// for debugging, another one as much as was asked for.
pub fn log_level(set_by_environment: bool, debug_build: bool, verbose: u8) -> (r: Option<LogLevel>)
    ensures
        r == (if set_by_environment {
            None
        } else if debug_build || verbose == 2 {
            Some(LogLevel::Debug)
        } else if verbose < 2 {
            Some(LogLevel::Info)
        } else {
            Some(LogLevel::Trace)
        }),
{
    if set_by_environment {
        None
    } else if debug_build {
        Some(LogLevel::Debug)
    } else {
        match verbose {
            0 | 1 => Some(LogLevel::Info),
            2 => Some(LogLevel::Debug),
            _ => Some(LogLevel::Trace),
        }
    }
}

/// The format asked for with an option is the one that is used, whatever files are named and
/// whether or not the other option is given.
pub proof fn law_each_given_format_wins(cmd: FileCmd, from: FromVariant)
    ensures
        cmd.to matches Some(to) ==> target_format(cmd, from) == to,
        cmd.from matches Some(asked) ==> source_format(cmd) == Ok::<FromVariant, PlanError>(asked),
{
}

/// Without an option for it, the format written is that of the extension of the output, and the one
/// read if there is no output or its extension is that of no format.
pub proof fn law_output_extension_names_format(
    cmd: FileCmd,
    from: FromVariant,
    dir: Seq<char>,
    stem: Seq<char>,
    ext: Seq<char>,
)
    requires
        cmd.to is None,
        stem.len() > 0,
        ext.len() > 0,
        !stem.contains('/'),
        !ext.contains('/'),
        !ext.contains('.'),
    ensures
        cmd.output is None ==> target_format(cmd, from) == variants::same_format(from),
        (cmd.output matches Some(path) && (path@ == stem + "."@ + ext || path@ == dir + "/"@ + (stem
            + "."@ + ext))) ==> target_format(cmd, from) == (match variants::to_extension(ext) {
            Some(to) => to,
            None => variants::same_format(from),
        }),
        (cmd.output matches Some(path) && (path@ == ext || path@ == dir + "/"@ + ext))
            ==> target_format(cmd, from) == variants::same_format(from),
{
    paths::law_path_has_extension_of_its_name(dir, stem, ext);
}

/// Without an option for it, the format read is that of the extension of the input. It cannot be
/// told where there is no input, no extension, or one that is that of no format.
pub proof fn law_input_extension_names_format(
    cmd: FileCmd,
    dir: Seq<char>,
    stem: Seq<char>,
    ext: Seq<char>,
)
    requires
        cmd.from is None,
        stem.len() > 0,
        ext.len() > 0,
        !stem.contains('/'),
        !ext.contains('/'),
        !ext.contains('.'),
        ext != "tera"@,
    ensures
        cmd.input is None ==> source_format(cmd) == Err::<FromVariant, PlanError>(
            PlanError::NoFormat,
        ),
        (cmd.input matches Some(path) && (path@ == stem + "."@ + ext || path@ == dir + "/"@ + (stem
            + "."@ + ext))) ==> source_format(cmd) == (match variants::from_extension(ext) {
            Some(from) => Ok::<FromVariant, PlanError>(from),
            None => Err(PlanError::Infer(InferError::UnknownExtension)),
        }),
        (cmd.input matches Some(path) && (path@ == ext || path@ == dir + "/"@ + ext))
            ==> source_format(cmd) == Err::<FromVariant, PlanError>(
            PlanError::Infer(InferError::NoExtension),
        ),
{
    paths::law_path_has_extension_of_its_name(dir, stem, ext);
}

/// The format of a template is that of the extension in front of `.tera`, in any directory. It
/// cannot be told where there is none.
pub proof fn law_template_names_inner_format(
    cmd: FileCmd,
    dir: Seq<char>,
    stem: Seq<char>,
    ext: Seq<char>,
)
    requires
        cmd.from is None,
        stem.len() > 0,
        ext.len() > 0,
        !stem.contains('/'),
        !ext.contains('/'),
        !ext.contains('.'),
    ensures
        (cmd.input matches Some(path) && (path@ == stem + "."@ + ext + "."@ + "tera"@ || path@
            == dir + "/"@ + (stem + "."@ + ext + "."@ + "tera"@))) ==> source_format(cmd) == (
        match variants::from_extension(ext) {
            Some(from) => Ok::<FromVariant, PlanError>(from),
            None => Err(PlanError::Infer(InferError::UnknownExtension)),
        }),
        (cmd.input matches Some(path) && (path@ == ext + "."@ + "tera"@ || path@ == dir + "/"@ + (ext
            + "."@ + "tera"@))) ==> source_format(cmd) == Err::<FromVariant, PlanError>(
            PlanError::Infer(InferError::NoExtension),
        ),
{
    lemma_tera();
    reveal_strlit(".");
    let inner = stem + "."@ + ext;
    assert(!inner.contains('/')) by {
        assert forall|i: int| 0 <= i < inner.len() implies inner[i] != '/' by {
            if i < stem.len() {
                assert(stem.contains(stem[i]));
            } else if i > stem.len() {
                assert(inner[i] == ext[i - stem.len() - 1]);
                assert(ext.contains(ext[i - stem.len() - 1]));
            }
        }
    }
    paths::law_path_has_extension_of_its_name(dir, inner, "tera"@);
    paths::law_path_has_extension_of_its_name(dir, ext, "tera"@);
    paths::law_inner_extension_comes_before_last(dir, stem, ext, "tera"@);
}

/// The extension of a template.
proof fn lemma_tera()
    ensures
        "tera"@.len() == 4,
        !"tera"@.contains('/'),
        !"tera"@.contains('.'),
{
    reveal_strlit("tera");
}

/// The input is rendered exactly if that was asked for, or if its name ends in `.tera`; the output
/// and the formats have no say in it.
pub proof fn law_rendering_goes_by_option_and_name(
    cmd: FileCmd,
    dir: Seq<char>,
    stem: Seq<char>,
    ext: Seq<char>,
)
    requires
        stem.len() > 0,
        ext.len() > 0,
        !stem.contains('/'),
        !ext.contains('/'),
        !ext.contains('.'),
    ensures
        cmd.tera ==> wants_tera(cmd),
        cmd.input is None ==> wants_tera(cmd) == cmd.tera,
        (cmd.input matches Some(path) && (path@ == stem + "."@ + ext || path@ == dir + "/"@ + (stem
            + "."@ + ext))) ==> wants_tera(cmd) == (cmd.tera || ext == "tera"@),
        (cmd.input matches Some(path) && (path@ == ext || path@ == dir + "/"@ + ext)) ==> wants_tera(
            cmd,
        ) == cmd.tera,
{
    paths::law_path_has_extension_of_its_name(dir, stem, ext);
}

/// Nothing is rendered and nothing refused of an input that is no template. Of a template the whole
/// text is handed on, with the wish to escape; it is refused only if it is no text.
pub proof fn law_only_templates_are_rendered(input: Seq<u8>, rendered: Seq<char>)
    ensures
        call_of(input, false) is None,
        !is_refused(input, false),
        call_of(input, true) is None <==> is_refused(input, true),
        is_refused(input, true) <==> !vstd::utf8::valid_utf8(input),
        call_of(vstd::utf8::encode_utf8(rendered), true) == Some((rendered, true)),
        converted(input, None) == Some(input),
        converted(input, Some(Some(rendered))) == Some(vstd::utf8::encode_utf8(rendered)),
        converted(input, Some(None)) is None,
{
    vstd::utf8::encode_utf8_valid_utf8(rendered);
    vstd::utf8::encode_utf8_decode_utf8(rendered);
}

/// What is shown of a rendering is the whole of it, under a heading and above a line.
pub proof fn law_report_shows_rendering(rendered: Seq<char>)
    ensures
        report_of(rendered) == "# Tera output\n"@ + rendered + "\n\n---\n\n"@,
{
}

/// The directory of a compose file is what stands before its name; that of a bare name is the
/// current one.
pub proof fn law_compose_file_has_directory(dir: Seq<char>, name: Seq<char>)
    requires
        name.len() > 0,
        name != "."@,
        !name.contains('/'),
        dir.len() > 0,
        dir.last() != '/',
        !text::ends(dir, "/."@),
    ensures
        compose_dir_of(None) is None,
        compose_dir_of(Some(dir + "/"@ + name)) == Some(dir),
        compose_dir_of(Some("/"@ + name)) == Some("/"@),
        compose_dir_of(Some(name)) == Some("."@),
{
    reveal_strlit("/");
    paths::law_parent_stands_before_name(dir, name, dir);
}

/// Units are printed exactly if there is no directory to write them to, and are activated exactly
/// if they were written and someone can be asked.
pub proof fn law_units_go_one_way(to_directory: bool, interactive: bool)
    ensures
        delivery_of(to_directory, interactive) == Delivery::Print <==> !to_directory,
        delivery_of(to_directory, interactive) == Delivery::WriteAndActivate <==> to_directory
            && interactive,
{
}

/// Formats go by extensions: that of the output, and that of the input or, of a template, the one
/// in front.
pub proof fn law_formats_go_by_extensions(path: Seq<char>)
    ensures
        is_template(path) <==> paths::extension_of(path) == Some("tera"@),
        paths::extension_of(path) == Some("tera"@) ==> file_format(path) == variants::inferred(
            paths::inner_extension_of(path),
        ),
        paths::extension_of(path) != Some("tera"@) ==> file_format(path) == variants::inferred(
            paths::extension_of(path),
        ),
        paths::extension_of(path) matches Some(ext) ==> variants::to_path(path)
            == variants::to_extension(ext),
        paths::extension_of(path) is None ==> variants::to_path(path) is None,
{
}

/// What is prepared of a rendering is its bytes, and its report exactly if more output was asked
/// for, however often.
pub proof fn law_rendering_is_reported_on_demand(p: Prepared, rendered: Seq<char>, verbose: u8)
    requires
        is_prepared(p, rendered, verbose),
    ensures
        p.bytes@ == vstd::utf8::encode_utf8(rendered),
        p.report is Some <==> verbose >= 1,
        p.report matches Some(report) ==> report@ == "# Tera output\n"@ + rendered
            + "\n\n---\n\n"@,
{
}

/// The directory of a compose file is the parent of its path, which is the current directory where
/// it is empty.
pub proof fn law_compose_directory_is_parent(path: Seq<char>)
    ensures
        paths::parent_of(path) is None ==> compose_dir_of(Some(path)) is None,
        paths::parent_of(path) matches Some(dir) ==> compose_dir_of(Some(path)) == Some(
            if dir.len() == 0 {
                "."@
            } else {
                dir
            },
        ),
{
}

} // verus!
