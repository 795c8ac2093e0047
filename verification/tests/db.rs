use broker::db::{lookup_imei, UnitMake};

#[test]
fn preserves_uppercase_subject_segments() {
    assert_eq!(UnitMake::Teltonika.as_subject_segment(), "TELTONIKA");
    assert_eq!(UnitMake::Ruptela.as_subject_segment(), "RUPTELA");
}

#[test]
fn reads_makes_back_from_their_segments() {
    assert_eq!(UnitMake::from_subject_segment("TELTONIKA"), Some(UnitMake::Teltonika));
    assert_eq!(UnitMake::from_subject_segment("RUPTELA"), Some(UnitMake::Ruptela));
    assert_eq!(UnitMake::from_subject_segment("teltonika"), None);
    assert_eq!(UnitMake::from_db("RUPTELA"), Some(UnitMake::Ruptela));
    assert_eq!(UnitMake::from_db(""), None);
}

#[test]
fn debug_names_match_derived_debug() {
    assert_eq!(UnitMake::Teltonika.debug_name(), format!("{:?}", UnitMake::Teltonika));
    assert_eq!(UnitMake::Ruptela.debug_name(), format!("{:?}", UnitMake::Ruptela));
}

#[test]
fn trims_the_imei_for_lookup() {
    assert_eq!(lookup_imei("  866069063120602\n"), Some("866069063120602"));
    assert_eq!(lookup_imei(" \t "), None);
    assert_eq!(lookup_imei(""), None);
}
