use vstd::prelude::*;
use vstd::string::*;

verus! {

/// Why a path given on the command line was refused.
#[derive(Clone, Copy, Debug, PartialEq, Eq, Structural)]
pub enum ConfigError {
    NotOnnx,
    NotJson,
    UnsupportedImage,
    MissingTextFiles,
    NotDirectoryOrImage,
    ExtractOutputNotJson,
    ExtractOutputInvalid,
    OutputTypeMismatch,
    InputStemUnreadable,
    OutputRootMissing,
}

impl ConfigError {
    pub fn message(&self) -> (r: &'static str)
        ensures
            *self == ConfigError::NotOnnx ==> r@ == "Model must be an ONNX file."@,
            *self == ConfigError::NotJson ==> r@ == "Text file must be a JSON file."@,
            *self == ConfigError::UnsupportedImage ==> r@
                == "Image file must be in one of the specified formats: JPG, PNG, WebP."@,
            *self == ConfigError::MissingTextFiles ==> r@
                == "All input images must have a corresponding text file."@,
            *self == ConfigError::NotDirectoryOrImage ==> r@
                == "Input must be either a directory or supported image type."@,
            *self == ConfigError::ExtractOutputNotJson ==> r@
                == "Output path must be a JSON if running in extract mode."@,
            *self == ConfigError::ExtractOutputInvalid ==> r@
                == "Output path must lead to a directory or json file for writing."@,
            *self == ConfigError::OutputTypeMismatch ==> r@
                == "Output and Input must be of the same type."@,
            *self == ConfigError::InputStemUnreadable ==> r@
                == "The input path needs a file stem with a UTF-8 compatible name."@,
            *self == ConfigError::OutputRootMissing ==> r@
                == "The output path has no root directory."@,
    {
        match self {
            ConfigError::NotOnnx => "Model must be an ONNX file.",
            ConfigError::NotJson => "Text file must be a JSON file.",
            ConfigError::UnsupportedImage => {
                "Image file must be in one of the specified formats: JPG, PNG, WebP."
            },
            ConfigError::MissingTextFiles => "All input images must have a corresponding text file.",
            ConfigError::NotDirectoryOrImage => {
                "Input must be either a directory or supported image type."
            },
            ConfigError::ExtractOutputNotJson => {
                "Output path must be a JSON if running in extract mode."
            },
            ConfigError::ExtractOutputInvalid => {
                "Output path must lead to a directory or json file for writing."
            },
            ConfigError::OutputTypeMismatch => "Output and Input must be of the same type.",
            ConfigError::InputStemUnreadable => {
                "The input path needs a file stem with a UTF-8 compatible name."
            },
            ConfigError::OutputRootMissing => "The output path has no root directory.",
        }
    }
}

/// The extension of a path's file name, as `Path::extension` finds it.
pub uninterp spec fn path_extension(p: Seq<char>) -> Option<Seq<char>>;

/// The file stem of a path, as `Path::file_stem` finds it.
pub uninterp spec fn path_stem(p: Seq<char>) -> Option<Seq<char>>;

/// Relies on `std::path::Path::extension`: the extension of the path's file
/// name, if it has one; the path is UTF-8, and so is the extension.
#[verifier::external_body]
pub(crate) fn extension_of(path: &str) -> (r: Option<String>)
    ensures
        r matches Some(e) ==> path_extension(path@) == Some(e@),
        r is None ==> path_extension(path@) is None,
{
    let ext = std::path::Path::new(path).extension()?;
    Some(ext.to_str()?.to_string())
}

/// Relies on `std::path::Path::file_stem`: the file name without its
/// extension, if the path has a file name.
#[verifier::external_body]
pub(crate) fn stem_of(path: &str) -> (r: Option<String>)
    ensures
        r matches Some(e) ==> path_stem(path@) == Some(e@),
        r is None ==> path_stem(path@) is None,
{
    let stem = std::path::Path::new(path).file_stem()?;
    Some(stem.to_str()?.to_string())
}

/// `a` and `b` hold the same characters.
pub fn str_eq(a: &str, b: &str) -> (r: bool)
    ensures
        r == (a@ == b@),
{
    let n = a.unicode_len();
    if n != b.unicode_len() {
        return false;
    }
    let mut i: usize = 0;
    while i < n
        invariant
            n == a@.len(),
            n == b@.len(),
            i <= n,
            forall|k: int| 0 <= k < i ==> a@[k] == b@[k],
        decreases n - i,
    {
        if a.get_char(i) != b.get_char(i) {
            return false;
        }
        i = i + 1;
    }
    assert(a@ =~= b@);
    true
}

fn opt_str_eq(a: &Option<String>, b: &str) -> (r: bool)
    ensures
        r == (a matches Some(s) && s@ == b@),
{
    match a {
        Some(s) => str_eq(s.as_str(), b),
        None => false,
    }
}

/// An extension that names one of the accepted image formats.
pub open spec fn is_image_extension(e: Seq<char>) -> bool {
    e == "jpg"@ || e == "jpeg"@ || e == "png"@ || e == "webp"@
}

/// Accepts a model whose extension is `onnx`.
pub fn check_model_extension(ext: &Option<String>) -> (r: Result<(), ConfigError>)
    ensures
        r == (if ext matches Some(e) && e@ == "onnx"@ {
            Ok::<(), ConfigError>(())
        } else {
            Err(ConfigError::NotOnnx)
        }),
{
    if opt_str_eq(ext, "onnx") {
        Ok(())
    } else {
        Err(ConfigError::NotOnnx)
    }
}

/// Accepts a text file whose extension is `json`.
pub fn check_text_extension(ext: &Option<String>) -> (r: Result<(), ConfigError>)
    ensures
        r == (if ext matches Some(e) && e@ == "json"@ {
            Ok::<(), ConfigError>(())
        } else {
            Err(ConfigError::NotJson)
        }),
{
    if opt_str_eq(ext, "json") {
        Ok(())
    } else {
        Err(ConfigError::NotJson)
    }
}

/// Accepts an image whose extension is `jpg`, `jpeg`, `png` or `webp`.
pub fn check_image_extension(ext: &Option<String>) -> (r: Result<(), ConfigError>)
    ensures
        r == (if ext matches Some(e) && is_image_extension(e@) {
            Ok::<(), ConfigError>(())
        } else {
            Err(ConfigError::UnsupportedImage)
        }),
{
    if opt_str_eq(ext, "jpg") || opt_str_eq(ext, "jpeg") || opt_str_eq(ext, "png") || opt_str_eq(
        ext,
        "webp",
    ) {
        Ok(())
    } else {
        Err(ConfigError::UnsupportedImage)
    }
}

/// Accepts a model path in the ONNX format.
pub fn validate_model(model: &str) -> (r: Result<(), ConfigError>)
    ensures
        r is Ok <==> path_extension(model@) == Some("onnx"@),
        r is Err ==> r == Err::<(), ConfigError>(ConfigError::NotOnnx),
{
    let ext = extension_of(model);
    check_model_extension(&ext)
}

/// Accepts a text path in the JSON format.
pub fn validate_text(text: &str) -> (r: Result<(), ConfigError>)
    ensures
        r is Ok <==> path_extension(text@) == Some("json"@),
        r is Err ==> r == Err::<(), ConfigError>(ConfigError::NotJson),
{
    let ext = extension_of(text);
    check_text_extension(&ext)
}

/// Accepts an image path in one of the supported formats.
pub fn validate_image(image: &str) -> (r: Result<(), ConfigError>)
    ensures
        r is Ok <==> (path_extension(image@) matches Some(e) && is_image_extension(e)),
        r is Err ==> r == Err::<(), ConfigError>(ConfigError::UnsupportedImage),
{
    let ext = extension_of(image);
    check_image_extension(&ext)
}

pub open spec fn holds_str(o: Option<String>, s: Seq<char>) -> bool {
    o matches Some(x) && x@ == s
}

/// Some entry of `stems` is `s`.
pub open spec fn has_stem(stems: Seq<Option<String>>, s: Seq<char>) -> bool {
    exists|j: int| 0 <= j < stems.len() && #[trigger] holds_str(stems[j], s)
}

/// Some path of `paths` has the stem `s`.
pub open spec fn has_text_file(paths: Seq<String>, s: Seq<char>) -> bool {
    exists|j: int| 0 <= j < paths.len() && #[trigger] path_stem(paths[j]@) == Some(s)
}

/// Every input stem is among the text files' stems.
pub fn match_text_stems(input_stems: &Vec<String>, text_stems: &Vec<Option<String>>) -> (r: Result<
    (),
    ConfigError,
>)
    ensures
        r is Ok <==> forall|i: int|
            0 <= i < input_stems@.len() ==> has_stem(text_stems@, (#[trigger] input_stems@[i])@),
        r is Err ==> r == Err::<(), ConfigError>(ConfigError::MissingTextFiles),
{
    let mut i: usize = 0;
    while i < input_stems.len()
        invariant
            i <= input_stems@.len(),
            forall|k: int| 0 <= k < i ==> has_stem(text_stems@, (#[trigger] input_stems@[k])@),
        decreases input_stems@.len() - i,
    {
        let stem = input_stems[i].as_str();
        let mut found = false;
        let mut j: usize = 0;
        while j < text_stems.len() && !found
            invariant
                j <= text_stems@.len(),
                i < input_stems@.len(),
                stem@ == input_stems@[i as int]@,
                found ==> has_stem(text_stems@, stem@),
                !found ==> forall|m: int| 0 <= m < j ==> !(#[trigger] holds_str(text_stems@[m], stem@)),
            decreases text_stems@.len() - j,
        {
            if opt_str_eq(&text_stems[j], stem) {
                assert(holds_str(text_stems@[j as int], stem@));
                found = true;
            }
            j = j + 1;
        }
        if !found {
            return Err(ConfigError::MissingTextFiles);
        }
        i = i + 1;
    }
    Ok(())
}

/// Accepts a set of input images only where each has a text file with the
/// same stem.
pub fn validate_replace_mode(input_stems: Vec<String>, text_paths: &[String]) -> (r: Result<
    (),
    ConfigError,
>)
    ensures
        r is Ok <==> forall|i: int|
            0 <= i < input_stems@.len() ==> has_text_file(text_paths@, (#[trigger] input_stems@[i])@),
        r is Err ==> r == Err::<(), ConfigError>(ConfigError::MissingTextFiles),
{
    let mut stems: Vec<Option<String>> = Vec::new();
    let mut j: usize = 0;
    while j < text_paths.len()
        invariant
            j <= text_paths@.len(),
            stems@.len() == j,
            forall|m: int|
                0 <= m < j ==> match #[trigger] stems@[m] {
                    Some(s) => path_stem(text_paths@[m]@) == Some(s@),
                    None => path_stem(text_paths@[m]@) is None,
                },
        decreases text_paths@.len() - j,
    {
        stems.push(stem_of(text_paths[j].as_str()));
        j = j + 1;
    }
    let r = match_text_stems(&input_stems, &stems);
    assert forall|i: int| 0 <= i < input_stems@.len() implies has_stem(
        stems@,
        (#[trigger] input_stems@[i])@,
    ) == has_text_file(text_paths@, input_stems@[i]@) by {
        let s = input_stems@[i]@;
        if has_stem(stems@, s) {
            let j = choose|j: int| 0 <= j < stems@.len() && #[trigger] holds_str(stems@[j], s);
            assert(path_stem(text_paths@[j]@) == Some(s));
        }
        if has_text_file(text_paths@, s) {
            let j = choose|j: int|
                0 <= j < text_paths@.len() && #[trigger] path_stem(text_paths@[j]@) == Some(s);
            assert(holds_str(stems@[j], s));
        }
    }
    r
}

} // verus!
