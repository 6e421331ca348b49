use atldp::catenary::{CoreError, Method};

#[test]
fn parse_known_methods() {
    assert_eq!(Method::parse("auto"), Ok(Method::Auto));
    assert_eq!(Method::parse("catenary"), Ok(Method::Catenary));
    assert_eq!(Method::parse("parabola"), Ok(Method::Parabola));
}

#[test]
fn parse_rejects_other_names() {
    assert_eq!(
        Method::parse("Auto"),
        Err(CoreError::UnknownMethod("Auto".to_string()))
    );
    assert_eq!(Method::parse(""), Err(CoreError::UnknownMethod(String::new())));
    assert_eq!(
        Method::parse("catenary "),
        Err(CoreError::UnknownMethod("catenary ".to_string()))
    );
}

#[test]
fn as_str_names() {
    assert_eq!(Method::Auto.as_str(), "auto");
    assert_eq!(Method::Catenary.as_str(), "catenary");
    assert_eq!(Method::Parabola.as_str(), "parabola");
}

#[test]
fn parse_inverts_as_str() {
    for m in [Method::Auto, Method::Catenary, Method::Parabola] {
        assert_eq!(Method::parse(m.as_str()), Ok(m));
    }
}

#[test]
fn error_messages() {
    assert_eq!(CoreError::NonPositiveSpan.message(), "span must be positive");
    assert_eq!(
        CoreError::NonPositiveLoadOrTension.message(),
        "load per unit length and horizontal tension must be positive"
    );
    assert_eq!(
        CoreError::UnknownMethod("spline".to_string()).message(),
        "unknown method \"spline\"; expected auto, catenary or parabola"
    );
    assert_eq!(
        CoreError::RootNotBracketed.message(),
        "change of state: no root between the slack limit and the rated strength"
    );
}
