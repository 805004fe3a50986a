use mangatra::config::{CliArgs, Config, InputMode, PathFacts, RuntimeMode};
use mangatra::geometry::Rect;
use mangatra::validation::ConfigError;
use mangatra::web::{
    collect_regions, http_boxes, hybrid, DetectionError, HttpBox, HttpDetection,
    HybridMakeServiceFuture, RegionError,
};

fn args(input: &str, output: Option<&str>, text: Option<&str>) -> CliArgs {
    CliArgs {
        input: input.to_string(),
        output: output.map(|s| s.to_string()),
        text: text.map(|s| s.to_string()),
        model: "./model.onnx".to_string(),
        lang: "jpn_vert".to_string(),
        data: "/usr/share/tessdata".to_string(),
        padding: None,
        single: false,
        clean: true,
    }
}

const NO_DIRS: PathFacts = PathFacts { input_is_dir: false, output_is_dir: false, text_is_dir: false };

#[test]
fn parse_extraction_of_one_page() {
    let c = Config::parse(&args("./pages/page1.png", None, None), &NO_DIRS).unwrap();
    assert_eq!(c.runtime_mode, RuntimeMode::Extraction);
    assert!(c.clean);
    assert_eq!(c.input_mode, InputMode::Image);
    assert_eq!(c.output_path, "./page1.json");
    assert!(!c.create_output_dir);
    assert_eq!(c.text_files_path, "");
    assert_eq!(c.cleaned_page_path, "./page1_cleaned.png");
    assert_eq!(c.padding, 10);
    assert_eq!(c.tesseract_data_path, "/usr/share/tessdata");
}

#[test]
fn parse_replacement_of_a_directory() {
    let mut a = args("./pages", Some("./out"), Some("./texts"));
    a.padding = Some(4);
    let facts = PathFacts { input_is_dir: true, output_is_dir: true, text_is_dir: true };
    let c = Config::parse(&a, &facts).unwrap();
    assert_eq!(c.runtime_mode, RuntimeMode::Replacement);
    assert!(!c.clean);
    assert_eq!(c.input_mode, InputMode::Directory);
    assert_eq!(c.output_path, "./out");
    assert_eq!(c.text_files_path, "./texts");
    assert_eq!(c.cleaned_page_path, "");
    assert_eq!(c.padding, 4);
}

#[test]
fn parse_reports_the_first_refusal() {
    let mut bad_model = args("./pages/page1.png", None, None);
    bad_model.model = "./model.pt".to_string();
    assert_eq!(Config::parse(&bad_model, &NO_DIRS).unwrap_err(), ConfigError::NotOnnx);

    let bad_text = args("./pages/page1.png", None, Some("./t.txt"));
    assert_eq!(Config::parse(&bad_text, &NO_DIRS).unwrap_err(), ConfigError::NotJson);

    let bad_input = args("./pages/page1.tiff", None, None);
    assert_eq!(Config::parse(&bad_input, &NO_DIRS).unwrap_err(), ConfigError::UnsupportedImage);

    let bad_output = args("./pages/page1.png", Some("./out.txt"), None);
    assert_eq!(
        Config::parse(&bad_output, &NO_DIRS).unwrap_err(),
        ConfigError::ExtractOutputNotJson
    );
}

#[test]
fn client_detections_become_regions() {
    let d = vec![
        HttpDetection {
            text: "hello".to_string(),
            bounding_box: HttpBox { x: 3, y: 4, width: 10, height: 20 },
        },
        HttpDetection {
            text: "bye".to_string(),
            bounding_box: HttpBox { x: 30, y: 40, width: 5, height: 6 },
        },
    ];
    let (texts, regions) = collect_regions(&d).unwrap();
    assert_eq!(texts, vec!["hello".to_string(), "bye".to_string()]);
    assert_eq!(
        regions,
        vec![
            Rect { x: 3, y: 4, width: 10, height: 20 },
            Rect { x: 30, y: 40, width: 5, height: 6 }
        ]
    );
    let huge = vec![HttpDetection {
        text: "x".to_string(),
        bounding_box: HttpBox { x: 0, y: 0, width: u32::MAX, height: 1 },
    }];
    assert_eq!(
        collect_regions(&huge).unwrap_err(),
        RegionError { index: 0, error: DetectionError::SideTooLarge }
    );
    let mut mixed = d.clone();
    mixed.extend(huge);
    assert_eq!(
        collect_regions(&mixed).unwrap_err(),
        RegionError { index: 2, error: DetectionError::SideTooLarge }
    );
}

#[test]
fn regions_become_http_boxes() {
    let boxes = http_boxes(&vec![Rect { x: 1, y: 2, width: 3, height: 4 }]).unwrap();
    assert_eq!(boxes, vec![HttpBox { x: 1, y: 2, width: 3, height: 4 }]);
    assert!(http_boxes(&vec![Rect { x: 1, y: 2, width: -3, height: 4 }]).is_err());
}

#[test]
fn hybrid_service_hands_grpc_out_once() {
    let m = hybrid(1u8, "grpc");
    assert_eq!((m.make_web, m.grpc), (1, "grpc"));
    let mut f = HybridMakeServiceFuture { web_future: 0u8, grpc: Some(m.grpc) };
    assert_eq!(f.take_grpc(), Some("grpc"));
    assert_eq!(f.take_grpc(), None);
}

