use icon_resolver::formats::{get_formats, icon_type_named, parse_formats};
use icon_resolver::icon::IconType;
use icon_resolver::report::fmt_list;

#[test]
fn fmt_list_joins_with_commas() {
    let items = vec!["a".to_string(), "bc".to_string(), "d".to_string()];
    assert_eq!(fmt_list(&items), "a,bc,d");
}

#[test]
fn fmt_list_of_nothing_is_empty() {
    let items: Vec<String> = Vec::new();
    assert_eq!(fmt_list(&items), "");
}

#[test]
fn fmt_list_of_one_item_has_no_comma() {
    assert_eq!(fmt_list(&["hicolor".to_string()]), "hicolor");
}

#[test]
fn formats_are_read_in_any_letter_case() {
    assert_eq!(
        parse_formats("PNG,svg,Xmp"),
        Ok(vec![IconType::PNG, IconType::SVG, IconType::XMP])
    );
}

#[test]
fn unknown_format_is_reported_in_lower_case() {
    assert_eq!(parse_formats("png,JPEG,bmp"), Err("jpeg".to_string()));
}

#[test]
fn empty_format_list_is_an_error() {
    assert_eq!(parse_formats(""), Err(String::new()));
}

#[test]
fn no_format_list_accepts_everything() {
    assert_eq!(get_formats(None), Ok(None));
    let list = "svg".to_string();
    assert_eq!(get_formats(Some(&list)), Ok(Some(vec![IconType::SVG])));
}

#[test]
fn format_words_are_exact() {
    assert_eq!(icon_type_named("png"), Some(IconType::PNG));
    assert_eq!(icon_type_named("svg"), Some(IconType::SVG));
    assert_eq!(icon_type_named("xmp"), Some(IconType::XMP));
    assert_eq!(icon_type_named("xpm"), None);
    assert_eq!(icon_type_named("PNG"), None);
}
