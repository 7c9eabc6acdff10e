use geo_reproject::error::TransformerError;
use geo_reproject::transformer::{is_valid_crs, TransformerConfig, DEFAULT_FROM_CRS, DEFAULT_TO_CRS};

#[test]
fn default_is_wgs84_to_web_mercator() {
    let config = TransformerConfig::<u32>::default();
    assert_eq!(config.from(), "EPSG:4326");
    assert_eq!(config.to(), "EPSG:3857");
    assert_eq!(DEFAULT_FROM_CRS, "EPSG:4326");
    assert_eq!(DEFAULT_TO_CRS, "EPSG:3857");
    assert!(!config.is_transformer_available());
}

#[test]
fn empty_crs_is_rejected() {
    assert!(!is_valid_crs(""));
    assert!(is_valid_crs("EPSG:4326"));
    let r = TransformerConfig::<u32>::new(String::new(), "EPSG:3857".to_string());
    assert!(matches!(r, Err(TransformerError::InvalidCrs)));
    let r = TransformerConfig::<u32>::new("EPSG:4326".to_string(), String::new());
    assert!(matches!(r, Err(TransformerError::InvalidCrs)));
}

#[test]
fn cache_holds_the_stored_handle() {
    let mut config =
        TransformerConfig::<u32>::new("EPSG:4326".to_string(), "EPSG:3857".to_string()).unwrap();
    assert_eq!(config.cached_transformer(), None);
    config.store_transformer(7);
    assert!(config.is_transformer_available());
    assert_eq!(config.cached_transformer(), Some(&7));
    config.clear_cache();
    assert_eq!(config.cached_transformer(), None);
}

#[test]
fn changing_the_pair_drops_the_handle() {
    let mut config = TransformerConfig::<u32>::default();
    config.store_transformer(1);
    assert_eq!(
        config.update_crs("EPSG:3857".to_string(), String::new()),
        Err(TransformerError::InvalidCrs)
    );
    assert_eq!(config.cached_transformer(), Some(&1));
    assert_eq!(config.from(), "EPSG:4326");
    assert_eq!(
        config.update_crs("EPSG:3857".to_string(), "EPSG:4326".to_string()),
        Ok(())
    );
    assert_eq!(config.from(), "EPSG:3857");
    assert_eq!(config.to(), "EPSG:4326");
    assert!(!config.is_transformer_available());
}
