use presenterm::images::{parse_image_attributes, ImageAttributeError, Percent, PercentParseError};

#[test]
fn image_attributes() {
    let cases: [(&str, Option<u8>); 4] =
        [("image:width:50%", Some(50)), ("image:w:50%", Some(50)), ("", None), ("width", None)];
    for (input, expectation) in cases {
        let attributes = parse_image_attributes(input, "image:").expect("failed to parse");
        assert_eq!(attributes.width, expectation.map(Percent));
    }
}

#[test]
fn image_attributes_empty_prefix() {
    let cases: [(&str, Option<u8>); 2] = [("width:50%", Some(50)), ("", None)];
    for (input, expectation) in cases {
        let attributes = parse_image_attributes(input, "").expect("failed to parse");
        assert_eq!(attributes.width, expectation.map(Percent));
    }
}

#[test]
fn last_width_counts_and_other_pieces_are_ignored() {
    let attributes = parse_image_attributes("a picture,image:w:10%,x,image:width:75%", "image:").unwrap();
    assert_eq!(attributes.width, Some(Percent(75)));
}

#[test]
fn attribute_errors() {
    assert_eq!(parse_image_attributes("image:width", "image:"), Err(ImageAttributeError::AttributeMissing));
    assert_eq!(
        parse_image_attributes("image:height:5%", "image:"),
        Err(ImageAttributeError::UnknownAttribute("height".to_string()))
    );
    assert_eq!(
        parse_image_attributes("image:w:50", "image:"),
        Err(ImageAttributeError::InvalidWidth(PercentParseError::Unit))
    );
    assert_eq!(
        parse_image_attributes("image:w:150%", "image:"),
        Err(ImageAttributeError::InvalidWidth(PercentParseError::Value))
    );
    assert_eq!(
        parse_image_attributes("image:w:10%,image:bogus", "image:"),
        Err(ImageAttributeError::AttributeMissing)
    );
}

#[test]
fn percentages() {
    assert_eq!(Percent::parse("0%"), Ok(Percent(0)));
    assert_eq!(Percent::parse("100%"), Ok(Percent(100)));
    assert_eq!(Percent::parse("+42%"), Ok(Percent(42)));
    assert_eq!(Percent::parse("007%"), Ok(Percent(7)));
    assert_eq!(Percent::parse("101%"), Err(PercentParseError::Value));
    assert_eq!(Percent::parse("1000%"), Err(PercentParseError::Value));
    assert_eq!(Percent::parse("%"), Err(PercentParseError::Value));
    assert_eq!(Percent::parse("+%"), Err(PercentParseError::Value));
    assert_eq!(Percent::parse("1a%"), Err(PercentParseError::Value));
    assert_eq!(Percent::parse("50"), Err(PercentParseError::Unit));
    assert_eq!(Percent::parse(""), Err(PercentParseError::Unit));
}
