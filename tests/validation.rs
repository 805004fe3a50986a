use std::path::Path;

use mangatra::config::{Config, InputMode, RuntimeMode};
use mangatra::validation::{validate_image, validate_model, validate_replace_mode, validate_text};
use tempfile::{Builder, TempDir};

fn path_str(p: &Path) -> &str {
    p.to_str().unwrap()
}

#[test]
fn test_model_validation() {
    let good_model_path = "./model.onnx";
    let bad_model_path = "./model.ONNX";
    let test_dir_path = TempDir::new().unwrap();

    let good_result = validate_model(good_model_path);
    let bad_err = validate_model(bad_model_path).unwrap_err();
    let dir_err = validate_model(path_str(test_dir_path.path())).unwrap_err();

    match good_result {
        Ok(_) => {}
        Err(e) => {
            panic!("{}", e.message())
        }
    }

    assert_eq!(bad_err.message(), "Model must be an ONNX file.");

    assert_eq!(dir_err.message(), "Model must be an ONNX file.");
}

#[test]
fn test_text_validation() {
    let good_text_path = "./text.json";
    let bad_text_path = "./text.txt";
    let test_dir_path = TempDir::new().unwrap();

    let good_result = validate_text(good_text_path);
    let bad_err = validate_text(bad_text_path).unwrap_err();
    let dir_err = validate_text(path_str(test_dir_path.path())).unwrap_err();

    match good_result {
        Ok(_) => {}
        Err(e) => {
            panic!("{}", e.message())
        }
    }

    assert_eq!(bad_err.message(), "Text file must be a JSON file.");

    assert_eq!(dir_err.message(), "Text file must be a JSON file.");
}

#[test]
fn test_image_validation() {
    for good in ["./image1.jpg", "./image2.jpeg", "./image3.png", "./image4.webp"] {
        match validate_image(good) {
            Ok(_) => {}
            Err(e) => {
                panic!("{}", e.message())
            }
        }
    }

    let test_dir_path = TempDir::new().unwrap();
    let bad_image_path1 = "./bad_image1.tiff";
    let bad_image_path2 = "./image2";

    let err1 = validate_image(path_str(test_dir_path.path())).unwrap_err();
    let err2 = validate_image(bad_image_path1).unwrap_err();
    let err3 = validate_image(bad_image_path2).unwrap_err();

    let expected = "Image file must be in one of the specified formats: JPG, PNG, WebP.";
    assert_eq!(err1.message(), expected);
    assert_eq!(err2.message(), expected);
    assert_eq!(err3.message(), expected);
}

#[test]
fn test_input_mode() {
    for p in ["./test.jpg", "./test.jpeg", "./test.png", "./test.webp"] {
        assert_eq!(InputMode::Image, Config::get_input_mode(p, Path::new(p).is_dir()).unwrap());
    }

    let input_dir = TempDir::new().unwrap();

    assert_eq!(
        InputMode::Directory,
        Config::get_input_mode(path_str(input_dir.path()), input_dir.path().is_dir()).unwrap()
    )
}

#[test]
fn test_input_mode_error() {
    let bad_input = "./test.onnx";

    let error = Config::get_input_mode(bad_input, false).unwrap_err();

    assert_eq!(
        error.message(),
        "Image file must be in one of the specified formats: JPG, PNG, WebP."
    );

    let bad_dir_input = Builder::new().suffix("").tempfile().unwrap();

    let error =
        Config::get_input_mode(path_str(bad_dir_input.path()), bad_dir_input.path().is_dir())
            .unwrap_err();

    assert_eq!(
        error.message(),
        "Input must be either a directory or supported image type."
    )
}

#[test]
fn test_output_replace_path() {
    let test_dir_path = TempDir::new().unwrap();
    let dir = path_str(test_dir_path.path()).to_string();

    let (dir_result, _) = Config::get_output_path(
        &dir,
        &Some(dir.clone()),
        true,
        RuntimeMode::Replacement,
        InputMode::Directory,
    )
    .unwrap();

    assert_eq!(dir_result, dir);

    let test_image = "./test.json".to_string();

    let (image_result, _) = Config::get_output_path(
        &dir,
        &Some(test_image.clone()),
        Path::new(&test_image).is_dir(),
        RuntimeMode::Replacement,
        InputMode::Image,
    )
    .unwrap();

    assert_eq!(image_result, test_image)
}

#[test]
fn test_output_replace_path_error() {
    let test_dir_path = TempDir::new().unwrap();
    let dir = path_str(test_dir_path.path()).to_string();

    let dir_err = Config::get_output_path(
        &dir,
        &Some(dir.clone()),
        true,
        RuntimeMode::Replacement,
        InputMode::Image,
    )
    .unwrap_err();

    assert_eq!(dir_err.message(), "Output and Input must be of the same type.");

    let test_image = "./test.json".to_string();

    let image_error = Config::get_output_path(
        &dir,
        &Some(test_image.clone()),
        Path::new(&test_image).is_dir(),
        RuntimeMode::Replacement,
        InputMode::Directory,
    )
    .unwrap_err();

    assert_eq!(image_error.message(), "Output and Input must be of the same type.");
}

#[test]
fn test_output_extract_path() {
    let text_output_path = "./test.json".to_string();

    let (json_result, _) = Config::get_output_path(
        &text_output_path,
        &Some(text_output_path.clone()),
        false,
        RuntimeMode::Extraction,
        InputMode::Image,
    )
    .unwrap();

    assert_eq!(json_result, text_output_path);

    let test_dir_path = TempDir::new().unwrap();
    let dir = path_str(test_dir_path.path()).to_string();

    let (dir_result, _) = Config::get_output_path(
        &text_output_path,
        &Some(dir.clone()),
        true,
        RuntimeMode::Extraction,
        InputMode::Directory,
    )
    .unwrap();

    assert_eq!(dir_result, dir);
}

#[test]
fn test_output_extract_path_error() {
    let bad_dir_input = Builder::new().suffix("").tempfile().unwrap();
    let bad = path_str(bad_dir_input.path()).to_string();

    let extract_error = Config::get_output_path(
        &bad,
        &Some(bad.clone()),
        bad_dir_input.path().is_dir(),
        RuntimeMode::Extraction,
        InputMode::Directory,
    )
    .unwrap_err();

    assert_eq!(
        extract_error.message(),
        "Output path must lead to a directory or json file for writing."
    )
}

#[test]
fn test_output_extract_mode_default_path() {
    let temp_input_dir = TempDir::new().unwrap();
    let input = path_str(temp_input_dir.path()).to_string();
    let input_stem = temp_input_dir.path().file_stem().unwrap().to_str().unwrap();

    let (default_json_path, create) =
        Config::get_output_path(&input, &None, false, RuntimeMode::Extraction, InputMode::Image)
            .unwrap();
    assert_eq!(format!("./{input_stem}.json"), default_json_path);
    assert!(!create);

    let (default_dir_path, create) = Config::get_output_path(
        &input,
        &None,
        false,
        RuntimeMode::Extraction,
        InputMode::Directory,
    )
    .unwrap();
    assert_eq!(format!("./{input_stem}_text"), default_dir_path);
    assert!(create);
}

#[test]
fn test_output_default_path() {
    let temp_input_dir = TempDir::new().unwrap();
    let input = path_str(temp_input_dir.path()).to_string();
    let input_stem = temp_input_dir.path().file_stem().unwrap().to_str().unwrap();

    let (default_image_path, _) =
        Config::get_output_path(&input, &None, false, RuntimeMode::Replacement, InputMode::Image)
            .unwrap();
    assert_eq!(format!("./{input_stem}_output.png"), default_image_path);

    let (default_dir_path, _) = Config::get_output_path(
        &input,
        &None,
        false,
        RuntimeMode::Replacement,
        InputMode::Directory,
    )
    .unwrap();
    assert_eq!(format!("./{input_stem}_output"), default_dir_path)
}

#[test]
fn replace_mode_needs_a_text_file_per_page() {
    let texts = vec!["out/page1.json".to_string(), "out/page2.json".to_string()];
    assert!(validate_replace_mode(vec!["page1".to_string(), "page2".to_string()], &texts).is_ok());
    let err = validate_replace_mode(vec!["page3".to_string()], &texts).unwrap_err();
    assert_eq!(err.message(), "All input images must have a corresponding text file.");
    assert!(validate_replace_mode(vec![], &texts).is_ok());
}

#[test]
fn cleaned_page_path_sits_beside_output() {
    let p = Config::get_cleaned_page_path(
        "./pages/page1.png",
        &Some("out/result.png".to_string()),
        InputMode::Image,
    )
    .unwrap();
    assert_eq!(p, "out/page1_cleaned.png");
    let d = Config::get_cleaned_page_path("./pages", &None, InputMode::Directory).unwrap();
    assert_eq!(d, "./pages_cleaned");
}
