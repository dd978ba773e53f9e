use q_explore::config::{ApiKeysConfig, LocationConfig, ServerConfig, UrlConfig};
use q_explore::coord::{available_types, AnomalyType, Coordinates, GenerationMode, Point};
use q_explore::error::Error;
use q_explore::format::{
    available_formats, get_formatter, Formatter, GpxFormatter, JsonFormatter, TextFormatter,
    UrlFormatter,
};
use q_explore::zscore::ZScore;

#[test]
fn test_available_types() {
    let types = available_types();
    assert_eq!(
        types,
        vec![AnomalyType::BlindSpot, AnomalyType::Attractor, AnomalyType::Void, AnomalyType::Power]
    );
    let names: Vec<&str> = types.iter().map(|t| t.name()).collect();
    assert_eq!(names, vec!["blind_spot", "attractor", "void", "power"]);
}

#[test]
fn test_available_formats() {
    let formats = available_formats();
    assert_eq!(formats.len(), 4);
    let names: Vec<&str> = formats.iter().map(|f| f.name.as_str()).collect();
    assert!(names.contains(&"json"));
    assert!(names.contains(&"text"));
    assert!(names.contains(&"gpx"));
    assert!(names.contains(&"url"));
}

#[test]
fn test_json_formatter_info() {
    assert_eq!(JsonFormatter.name(), "json");
    assert!(!JsonFormatter.description().is_empty());
}

#[test]
fn test_text_formatter_info() {
    assert_eq!(TextFormatter.name(), "text");
    assert!(!TextFormatter.description().is_empty());
}

#[test]
fn test_gpx_formatter_info() {
    assert_eq!(GpxFormatter.name(), "gpx");
    assert!(!GpxFormatter.description().is_empty());
}

#[test]
fn test_url_formatter_info() {
    assert_eq!(UrlFormatter.name(), "url");
    assert!(!UrlFormatter.description().is_empty());
}

#[test]
fn mode_defaults_to_standard() {
    assert_eq!(GenerationMode::default(), GenerationMode::Standard);
    assert_eq!(GenerationMode::FlowerPower.name(), "flower_power");
}

#[test]
fn coordinates_validate_ranges() {
    assert!(Coordinates::new(40_712_800_000, -74_006_000_000).validate().is_ok());
    assert!(matches!(
        Coordinates::new(90_000_000_001, 0).validate(),
        Err(Error::InvalidCoordinates(_))
    ));
    assert!(matches!(
        Coordinates::new(0, -180_000_000_001).validate(),
        Err(Error::InvalidCoordinates(_))
    ));
}

#[test]
fn point_constructors_set_their_fields() {
    let c = Coordinates::new(1, 2);
    let z = ZScore { numer: -3, denom_sq: 4 };
    assert_eq!(Point::new(c).z_score, None);
    assert_eq!(Point::with_z_score(c, z).z_score, Some(z));
    let p = Point::power(c, z, false);
    assert_eq!(p.is_attractor, Some(false));
    assert_eq!(p.coords, c);
}

#[test]
fn error_codes() {
    assert_eq!(Error::Qrng("x".to_string()).error_code(), "QRNG_ERROR");
    assert_eq!(Error::Config("x".to_string()).error_code(), "CONFIG_ERROR");
    assert_eq!(Error::Geo("x".to_string()).error_code(), "GEO_ERROR");
}

#[test]
fn test_default_config() {
    let server = ServerConfig::default();
    assert_eq!(server.port, 7878);
    assert_eq!(server.host, "127.0.0.1");
    assert_eq!(server.shutdown_timeout_secs, 30);
    assert!(!LocationConfig::default().default_here);
    assert!(ApiKeysConfig::default().anu.is_empty());
    let url = UrlConfig::default();
    assert_eq!(url.default, "google");
    assert_eq!(url.providers.len(), 3);
    assert_eq!(url.providers[0].0, "google");
}

#[test]
fn names_parse_ignoring_case() {
    assert_eq!(AnomalyType::parse("ATTRACTOR"), Ok(AnomalyType::Attractor));
    assert_eq!(AnomalyType::parse("Blind-Spot"), Ok(AnomalyType::BlindSpot));
    assert_eq!("void".parse::<AnomalyType>(), Ok(AnomalyType::Void));
    assert_eq!(AnomalyType::parse("Power"), Ok(AnomalyType::Power));
    assert!(AnomalyType::parse("nothing").unwrap_err().contains("nothing"));
    assert_eq!(GenerationMode::parse("Flower-Power"), Ok(GenerationMode::FlowerPower));
    assert_eq!("STANDARD".parse::<GenerationMode>(), Ok(GenerationMode::Standard));
    assert!(GenerationMode::parse("petals").is_err());
}

#[test]
fn test_get_formatter() {
    assert!(matches!(get_formatter("json"), Some(Formatter::Json(_))));
    assert!(matches!(get_formatter("text"), Some(Formatter::Text(_))));
    assert!(matches!(get_formatter("gpx"), Some(Formatter::Gpx(_))));
    assert!(matches!(get_formatter("url"), Some(Formatter::Url(_))));
    assert!(get_formatter("unknown").is_none());
}

#[test]
fn test_get_formatter_case_insensitive() {
    assert!(matches!(get_formatter("JSON"), Some(Formatter::Json(_))));
    assert!(matches!(get_formatter("Text"), Some(Formatter::Text(_))));
    assert!(matches!(get_formatter("GPX"), Some(Formatter::Gpx(_))));
}
