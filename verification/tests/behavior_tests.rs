use miniargs::args::Args;

#[test]
fn unmatched_flags_keep_their_defaults() -> Result<(), String> {
    let args = Args::build("l,p#,d*", vec![])?;

    assert_eq!(args.get_bool('l')?, false);
    assert_eq!(args.get_int('p')?, 0);
    assert_eq!(args.get_string('d')?, "".to_string());

    Ok(())
}

#[test]
fn empty_template_gives_empty_schema() {
    let args = Args::build("", vec![]).unwrap();

    let err = args.get_bool('l').unwrap_err();

    assert_eq!("No argument 'l' was provided in schema", err);
}

#[test]
fn integer_round_trip_covers_the_whole_range() -> Result<(), String> {
    let args = Args::build("p#", vec!["-p-2147483648".to_string()])?;
    assert_eq!(args.get_int('p')?, i32::MIN);

    let args = Args::build("p#", vec!["-p2147483647".to_string()])?;
    assert_eq!(args.get_int('p')?, i32::MAX);

    let args = Args::build("p#", vec!["-p0".to_string()])?;
    assert_eq!(args.get_int('p')?, 0);

    let args = Args::build("p#", vec!["-p+42".to_string()])?;
    assert_eq!(args.get_int('p')?, 42);

    let args = Args::build("p#", vec!["-p007".to_string()])?;
    assert_eq!(args.get_int('p')?, 7);

    Ok(())
}

#[test]
fn out_of_range_integer_is_rejected() {
    let err = Args::build("p#", vec!["-p2147483648".to_string()]).unwrap_err();

    assert_eq!(
        "Provided argument value '2147483648' is not of a type integer",
        err
    );
}

#[test]
fn empty_integer_value_is_rejected() {
    let err = Args::build("p#", vec!["-p".to_string()]).unwrap_err();

    assert_eq!("Provided argument value '' is not of a type integer", err);
}

#[test]
fn last_write_wins_for_integer_flags() -> Result<(), String> {
    let args = Args::build("p#", vec!["-p80".to_string(), "-p8080".to_string()])?;

    assert_eq!(args.get_int('p')?, 8080);

    Ok(())
}

#[test]
fn last_write_wins_for_text_flags() -> Result<(), String> {
    let args = Args::build(
        "d*",
        vec!["-d/usr/bin".to_string(), "-d/opt".to_string()],
    )?;

    assert_eq!(args.get_string('d')?, "/opt".to_string());

    Ok(())
}

#[test]
fn text_flag_can_be_overwritten_with_empty_value() -> Result<(), String> {
    let args = Args::build("d*", vec!["-d/usr".to_string(), "-d".to_string()])?;

    assert_eq!(args.get_string('d')?, "".to_string());

    Ok(())
}

#[test]
fn trailing_characters_after_boolean_flag_are_ignored() -> Result<(), String> {
    let args = Args::build("l", vec!["-lxyz".to_string()])?;

    assert_eq!(args.get_bool('l')?, true);

    Ok(())
}

#[test]
fn bare_prefix_is_missing_a_flag_key() {
    let err = Args::build("l", vec!["-".to_string()]).unwrap_err();

    assert_eq!("Invalid argument format: -", err);
}

#[test]
fn empty_raw_token_is_missing_the_prefix() {
    let err = Args::build("l", vec!["".to_string()]).unwrap_err();

    assert_eq!("Arguments should start with a '-': ", err);
}

#[test]
fn empty_schema_token_is_malformed() {
    let err = Args::build("l,,p#", vec![]).unwrap_err();

    assert_eq!("Wrong schema argument format: ", err);
}

#[test]
fn trailing_comma_makes_an_empty_schema_token() {
    let err = Args::build("l,", vec![]).unwrap_err();

    assert_eq!("Wrong schema argument format: ", err);
}

#[test]
fn get_bool_on_integer_flag_is_a_type_mismatch() -> Result<(), String> {
    let args = Args::build("p#", vec!["-p1".to_string()])?;

    let err = args.get_bool('p').unwrap_err();

    assert_eq!("Provided argument is not of a type boolean: p", err);

    Ok(())
}

#[test]
fn get_string_on_boolean_flag_is_a_type_mismatch() -> Result<(), String> {
    let args = Args::build("l", vec!["-l".to_string()])?;

    let err = args.get_string('l').unwrap_err();

    assert_eq!("Provided argument is not of a type string: l", err);

    Ok(())
}

#[test]
fn first_matching_error_stops_processing() {
    let err = Args::build(
        "l,p#",
        vec!["WUT".to_string(), "-p5050".to_string()],
    )
    .unwrap_err();

    assert_eq!("Arguments should start with a '-': WUT", err);
}

#[test]
fn queries_can_be_repeated_in_any_order() -> Result<(), String> {
    let args = Args::build("l,p#", vec!["-p9".to_string()])?;

    assert_eq!(args.get_int('p')?, 9);
    assert_eq!(args.get_bool('l')?, false);
    assert_eq!(args.get_int('p')?, 9);
    assert_eq!(args.get_bool('l')?, false);

    Ok(())
}

#[test]
fn non_decimal_value_is_rejected_for_integer_flags() {
    let err = Args::build("p#", vec!["-p 5".to_string()]).unwrap_err();

    assert_eq!("Provided argument value ' 5' is not of a type integer", err);
}
