use cybersnatcher::engine::dash::parser::substitute_template;

#[test]
fn test_substitute_template() {
    let result = substitute_template(
        "segment_$RepresentationID$_$Number%05d$.m4s",
        "1", 500000, 42, 0,
    );
    assert_eq!(result, "segment_1_00042.m4s");
}
