use martin::cog::CogSource;

#[test]
fn test() {
    let path = "tests/fixtures/files/cog.tif";
    println!("{}", path);
}

#[test]
fn cog_source_keeps_id_and_path() {
    let src = CogSource::new("rgb".to_string(), "tests/fixtures/files/cog.tif".to_string());
    let copy = src.clone_source();
    assert_eq!(copy.id(), "rgb");
    assert_eq!(copy.path(), "tests/fixtures/files/cog.tif");
    assert!(!src.support_url_query());
    assert_eq!(src.describe(), "CogSource { id: rgb, path: \"tests/fixtures/files/cog.tif\" }");
}
