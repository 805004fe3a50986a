use vstd::prelude::*;
use vstd::string::*;

use crate::validation::{
    extension_of, path_extension, path_stem, stem_of, str_eq, validate_image, validate_model,
    validate_text, ConfigError, is_image_extension,
};

verus! {

/// Whether text is extracted from pages or replaced on them.
#[derive(Clone, Copy, Debug, PartialEq, Eq, Structural)]
pub enum RuntimeMode {
    Extraction,
    Replacement,
}

/// Whether the input is a directory of pages or one page.
#[derive(Clone, Copy, Debug, PartialEq, Eq, Structural)]
pub enum InputMode {
    Directory,
    Image,
}

/// The command-line arguments, with the text-recognition data directory
/// already resolved.
#[derive(Clone, Debug)]
pub struct CliArgs {
    pub input: String,
    pub output: Option<String>,
    pub text: Option<String>,
    pub model: String,
    pub lang: String,
    pub data: String,
    pub padding: Option<u16>,
    pub single: bool,
    pub clean: bool,
}

/// What the file system says of the paths given on the command line.
#[derive(Clone, Copy, Debug, PartialEq, Eq, Structural)]
pub struct PathFacts {
    pub input_is_dir: bool,
    pub output_is_dir: bool,
    pub text_is_dir: bool,
}

/// The settings of one run.
#[derive(Clone, Debug)]
pub struct Config {
    pub runtime_mode: RuntimeMode,
    pub clean: bool,
    pub text_files_path: String,
    pub input_files_path: String,
    pub output_path: String,
    /// The output path is a default directory, to be created if missing.
    pub create_output_dir: bool,
    pub cleaned_page_path: String,
    pub model_path: String,
    pub tesseract_data_path: String,
    pub lang: String,
    pub padding: u16,
    pub input_mode: InputMode,
    pub single: bool,
}

/// The parent directory of a path, as `Path::parent` finds it.
pub uninterp spec fn path_parent(p: Seq<char>) -> Option<Seq<char>>;

/// A path with a name appended, as `Path::join` builds it.
pub uninterp spec fn path_joined(base: Seq<char>, name: Seq<char>) -> Seq<char>;

/// A path with its extension replaced, as `Path::with_extension` builds it.
pub uninterp spec fn path_with_extension(p: Seq<char>, ext: Seq<char>) -> Seq<char>;

/// Relies on `std::path::Path::parent`: the path without its last
/// component, if it has one.
#[verifier::external_body]
fn parent_of(path: &str) -> (r: Option<String>)
    ensures
        r matches Some(e) ==> path_parent(path@) == Some(e@),
        r is None ==> path_parent(path@) is None,
{
    let parent = std::path::Path::new(path).parent()?;
    Some(parent.to_str()?.to_string())
}

/// Relies on `std::path::Path::join`: `name` appended to `base` as a new
/// component.
#[verifier::external_body]
fn join_path(base: &str, name: &str) -> (r: String)
    ensures
        r@ == path_joined(base@, name@),
{
    std::path::Path::new(base).join(name).to_string_lossy().into_owned()
}

/// Relies on `std::path::Path::with_extension`: the path with its extension
/// set to `ext`. It panics on an extension holding a path separator.
#[verifier::external_body]
fn with_extension(path: &str, ext: &str) -> (r: String)
    requires
        forall|i: int| 0 <= i < ext@.len() ==> ext@[i] != '/' && ext@[i] != '\\',
    ensures
        r@ == path_with_extension(path@, ext@),
{
    std::path::Path::new(path).with_extension(ext).to_string_lossy().into_owned()
}

pub open spec fn opt_view(o: Option<String>) -> Option<Seq<char>> {
    match o {
        Some(s) => Some(s@),
        None => None,
    }
}

/// A path with an extension must be a supported image; one without must be
/// a directory.
pub open spec fn input_mode_spec(input: Seq<char>, is_dir: bool) -> Result<InputMode, ConfigError> {
    match path_extension(input) {
        Some(e) => if is_image_extension(e) {
            Ok(InputMode::Image)
        } else {
            Err(ConfigError::UnsupportedImage)
        },
        None => if is_dir {
            Ok(InputMode::Directory)
        } else {
            Err(ConfigError::NotDirectoryOrImage)
        },
    }
}

/// The output path and whether it is a default directory to create: a
/// given path is checked against the mode; without one, a path beside the
/// working directory is named after the input's stem.
pub open spec fn output_path_spec(
    input: Seq<char>,
    output: Option<Seq<char>>,
    out_is_dir: bool,
    rm: RuntimeMode,
    im: InputMode,
) -> Result<(Seq<char>, bool), ConfigError> {
    match output {
        Some(p) => match rm {
            RuntimeMode::Extraction => match path_extension(p) {
                Some(e) => if e == "json"@ {
                    Ok((p, false))
                } else {
                    Err(ConfigError::ExtractOutputNotJson)
                },
                None => if out_is_dir {
                    Ok((p, false))
                } else {
                    Err(ConfigError::ExtractOutputInvalid)
                },
            },
            RuntimeMode::Replacement => if (out_is_dir && im == InputMode::Image) || (!out_is_dir
                && im == InputMode::Directory) {
                Err(ConfigError::OutputTypeMismatch)
            } else {
                Ok((p, false))
            },
        },
        None => match path_stem(input) {
            None => Err(ConfigError::InputStemUnreadable),
            Some(stem) => match (rm, im) {
                (RuntimeMode::Extraction, InputMode::Image) => Ok(("./"@ + stem + ".json"@, false)),
                (RuntimeMode::Extraction, InputMode::Directory) => Ok(
                    ("./"@ + stem + "_text"@, true),
                ),
                (RuntimeMode::Replacement, InputMode::Image) => Ok(
                    ("./"@ + stem + "_output.png"@, false),
                ),
                (RuntimeMode::Replacement, InputMode::Directory) => Ok(
                    ("./"@ + stem + "_output"@, true),
                ),
            },
        },
    }
}

/// Where cleaned pages go: `<stem>_cleaned` beside the output path (or in
/// the working directory), with the `png` extension for a single page.
pub open spec fn cleaned_page_path_spec(input: Seq<char>, output: Option<Seq<char>>, im: InputMode) -> Result<
    Seq<char>,
    ConfigError,
> {
    match path_stem(input) {
        None => Err(ConfigError::InputStemUnreadable),
        Some(stem) => {
            let root = match output {
                Some(p) => path_parent(p),
                None => Some("."@),
            };
            match root {
                None => Err(ConfigError::OutputRootMissing),
                Some(r) => {
                    let joined = path_joined(r, stem + "_cleaned"@);
                    if im == InputMode::Image {
                        Ok(path_with_extension(joined, "png"@))
                    } else {
                        Ok(joined)
                    }
                },
            }
        },
    }
}

pub open spec fn runtime_mode_spec(cli: CliArgs) -> RuntimeMode {
    if cli.text is None {
        RuntimeMode::Extraction
    } else {
        RuntimeMode::Replacement
    }
}

pub open spec fn clean_spec(cli: CliArgs) -> bool {
    cli.text is None && cli.clean
}

/// The first refusal among the checks, in the order they are made: input,
/// output, model, text file, cleaned-page path.
pub open spec fn parse_error(cli: CliArgs, facts: PathFacts) -> Option<ConfigError> {
    let rm = runtime_mode_spec(cli);
    match input_mode_spec(cli.input@, facts.input_is_dir) {
        Err(e) => Some(e),
        Ok(im) => match output_path_spec(
            cli.input@,
            opt_view(cli.output),
            facts.output_is_dir,
            rm,
            im,
        ) {
            Err(e) => Some(e),
            Ok(_) => if path_extension(cli.model@) != Some("onnx"@) {
                Some(ConfigError::NotOnnx)
            } else if cli.text matches Some(t) && !facts.text_is_dir && path_extension(t@) != Some(
                "json"@,
            ) {
                Some(ConfigError::NotJson)
            } else if clean_spec(cli) {
                match cleaned_page_path_spec(cli.input@, opt_view(cli.output), im) {
                    Err(e) => Some(e),
                    Ok(_) => None,
                }
            } else {
                None
            },
        },
    }
}

impl Config {
    /// Input mode of a path: a supported image, or a directory.
    pub fn get_input_mode(input: &str, input_is_dir: bool) -> (r: Result<InputMode, ConfigError>)
        ensures
            r == input_mode_spec(input@, input_is_dir),
    {
        match extension_of(input) {
            Some(_) => match validate_image(input) {
                Ok(()) => Ok(InputMode::Image),
                Err(e) => Err(e),
            },
            None => {
                if !input_is_dir {
                    return Err(ConfigError::NotDirectoryOrImage);
                }
                Ok(InputMode::Directory)
            },
        }
    }

    /// The output path, checked against the modes, or its default; and
    /// whether it is a default directory to create.
    pub fn get_output_path(
        input: &str,
        output: &Option<String>,
        output_is_dir: bool,
        runtime_mode: RuntimeMode,
        input_mode: InputMode,
    ) -> (r: Result<(String, bool), ConfigError>)
        ensures
            r matches Ok(v) ==> output_path_spec(
                input@,
                opt_view(*output),
                output_is_dir,
                runtime_mode,
                input_mode,
            ) == Ok::<(Seq<char>, bool), ConfigError>((v.0@, v.1)),
            r matches Err(e) ==> output_path_spec(
                input@,
                opt_view(*output),
                output_is_dir,
                runtime_mode,
                input_mode,
            ) == Err::<(Seq<char>, bool), ConfigError>(e),
    {
        match output {
            Some(path) => {
                match runtime_mode {
                    RuntimeMode::Extraction => {
                        match extension_of(path.as_str()) {
                            Some(e) => {
                                if !str_eq(e.as_str(), "json") {
                                    return Err(ConfigError::ExtractOutputNotJson);
                                }
                            },
                            None => {
                                if !output_is_dir {
                                    return Err(ConfigError::ExtractOutputInvalid);
                                }
                            },
                        }
                    },
                    RuntimeMode::Replacement => {
                        if output_is_dir && input_mode == InputMode::Image {
                            return Err(ConfigError::OutputTypeMismatch);
                        }
                        if !(output_is_dir || !(input_mode == InputMode::Directory)) {
                            return Err(ConfigError::OutputTypeMismatch);
                        }
                    },
                }
                Ok((path.clone(), false))
            },
            None => {
                let stem = match stem_of(input) {
                    Some(s) => s,
                    None => {
                        return Err(ConfigError::InputStemUnreadable);
                    },
                };
                let base = String::from_str("./").concat(stem.as_str());
                match runtime_mode {
                    RuntimeMode::Extraction => match input_mode {
                        InputMode::Image => Ok((base.concat(".json"), false)),
                        InputMode::Directory => Ok((base.concat("_text"), true)),
                    },
                    RuntimeMode::Replacement => match input_mode {
                        InputMode::Image => Ok((base.concat("_output.png"), false)),
                        InputMode::Directory => Ok((base.concat("_output"), true)),
                    },
                }
            },
        }
    }

    /// The path for cleaned pages.
    pub fn get_cleaned_page_path(input: &str, output: &Option<String>, input_mode: InputMode) -> (r:
        Result<String, ConfigError>)
        ensures
            r matches Ok(p) ==> cleaned_page_path_spec(input@, opt_view(*output), input_mode) == Ok::<
                Seq<char>,
                ConfigError,
            >(p@),
            r matches Err(e) ==> cleaned_page_path_spec(input@, opt_view(*output), input_mode)
                == Err::<Seq<char>, ConfigError>(e),
    {
        let stem = match stem_of(input) {
            Some(s) => s,
            None => {
                return Err(ConfigError::InputStemUnreadable);
            },
        };
        let root = match output {
            Some(path) => match parent_of(path.as_str()) {
                Some(r) => r,
                None => {
                    return Err(ConfigError::OutputRootMissing);
                },
            },
            None => String::from_str("."),
        };
        let name = stem.concat("_cleaned");
        let joined = join_path(root.as_str(), name.as_str());
        if input_mode == InputMode::Image {
            proof {
                reveal_strlit("png");
            }
            Ok(with_extension(joined.as_str(), "png"))
        } else {
            Ok(joined)
        }
    }

    /// Builds the run's settings from the command-line arguments and what
    /// the file system says of the paths in them.
    pub fn parse(cli: &CliArgs, facts: &PathFacts) -> (r: Result<Config, ConfigError>)
        ensures
            r is Ok <==> parse_error(*cli, *facts) is None,
            r matches Err(e) ==> parse_error(*cli, *facts) == Some(e),
            r matches Ok(c) ==> {
                let im = input_mode_spec(cli.input@, facts.input_is_dir)->Ok_0;
                let out = output_path_spec(
                    cli.input@,
                    opt_view(cli.output),
                    facts.output_is_dir,
                    runtime_mode_spec(*cli),
                    im,
                )->Ok_0;
                &&& c.runtime_mode == runtime_mode_spec(*cli)
                &&& c.clean == clean_spec(*cli)
                &&& c.input_mode == im
                &&& c.output_path@ == out.0
                &&& c.create_output_dir == out.1
                &&& c.text_files_path@ == match cli.text {
                    Some(t) => t@,
                    None => Seq::<char>::empty(),
                }
                &&& c.input_files_path@ == cli.input@
                &&& c.cleaned_page_path@ == if clean_spec(*cli) {
                    cleaned_page_path_spec(cli.input@, opt_view(cli.output), im)->Ok_0
                } else {
                    Seq::<char>::empty()
                }
                &&& c.model_path@ == cli.model@
                &&& c.tesseract_data_path@ == cli.data@
                &&& c.lang@ == cli.lang@
                &&& c.padding == match cli.padding {
                    Some(p) => p,
                    None => crate::DEFAULT_PADDING,
                }
                &&& c.single == cli.single
            },
    {
        let runtime_mode = match cli.text {
            None => RuntimeMode::Extraction,
            Some(_) => RuntimeMode::Replacement,
        };
        let clean = cli.text.is_none() && cli.clean;
        let input_mode = match Config::get_input_mode(cli.input.as_str(), facts.input_is_dir) {
            Ok(m) => m,
            Err(e) => {
                return Err(e);
            },
        };
        let (output, create_output_dir) = match Config::get_output_path(
            cli.input.as_str(),
            &cli.output,
            facts.output_is_dir,
            runtime_mode,
            input_mode,
        ) {
            Ok(v) => v,
            Err(e) => {
                return Err(e);
            },
        };
        match validate_model(cli.model.as_str()) {
            Ok(()) => {},
            Err(e) => {
                return Err(e);
            },
        }
        let mut text = String::new();
        match &cli.text {
            Some(t) => {
                if !facts.text_is_dir {
                    match validate_text(t.as_str()) {
                        Ok(()) => {},
                        Err(e) => {
                            return Err(e);
                        },
                    }
                }
                text = t.clone();
            },
            None => {},
        }
        let padding = match cli.padding {
            Some(p) => p,
            None => crate::DEFAULT_PADDING,
        };
        let mut cleaned_page_path = String::new();
        if clean {
            cleaned_page_path =
            match Config::get_cleaned_page_path(cli.input.as_str(), &cli.output, input_mode) {
                Ok(p) => p,
                Err(e) => {
                    return Err(e);
                },
            };
        }
        Ok(
            Config {
                runtime_mode,
                clean,
                text_files_path: text,
                input_files_path: cli.input.clone(),
                output_path: output,
                create_output_dir,
                cleaned_page_path,
                model_path: cli.model.clone(),
                tesseract_data_path: cli.data.clone(),
                lang: cli.lang.clone(),
                padding,
                input_mode,
                single: cli.single,
            },
        )
    }
}

} // verus!
