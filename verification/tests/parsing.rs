use stellar_pass::characters::Key;
use stellar_pass::inputs::{parse_key, parse_len};
use stellar_pass::service::{build_salt, make_service_label, split_service_request};

fn key_fields(k: Key) -> (bool, bool, bool, bool) {
    (k.upper, k.lower, k.num, k.sym)
}

#[test]
fn parse_key_reads_flags_in_order() {
    assert_eq!(key_fields(parse_key("TFTF\n")), (true, false, true, false));
    assert_eq!(key_fields(parse_key("ftft\n")), (false, true, false, true));
    assert_eq!(key_fields(parse_key("tttf\n")), (true, true, true, false));
}

#[test]
fn parse_key_rejects_all_false() {
    // A selection with all four classes disabled never reaches the engine:
    // it falls back to the default with every class enabled.
    assert_eq!(key_fields(parse_key("ffff\n")), (true, true, true, true));
    assert_eq!(key_fields(parse_key("FFFF\n")), (true, true, true, true));
    assert_eq!(key_fields(parse_key("fFfF\n")), (true, true, true, true));
}

#[test]
fn parse_key_falls_back_on_malformed_input() {
    assert_eq!(key_fields(parse_key("tf\n")), (true, true, true, true));
    assert_eq!(key_fields(parse_key("ttttt\n")), (true, true, true, true));
    assert_eq!(key_fields(parse_key("abcd\n")), (true, true, true, true));
    assert_eq!(key_fields(parse_key("")), (true, true, true, true));
}

#[test]
fn parse_len_reads_lengths() {
    assert_eq!(parse_len("16\n"), 16);
    assert_eq!(parse_len("4\n"), 4);
    assert_eq!(parse_len("255\n"), 255);
    assert_eq!(parse_len("+12\n"), 12);
    assert_eq!(parse_len("  20  \n"), 20);
}

#[test]
fn parse_len_falls_back_to_default() {
    assert_eq!(parse_len("3\n"), 16);
    assert_eq!(parse_len("0\n"), 16);
    assert_eq!(parse_len("256\n"), 16);
    assert_eq!(parse_len("999999999999\n"), 16);
    assert_eq!(parse_len("abc\n"), 16);
    assert_eq!(parse_len("\n"), 16);
    assert_eq!(parse_len("1 2\n"), 16);
}

#[test]
fn split_service_request_reads_title_and_number() {
    let (title, num) = split_service_request("Netflix 2");
    assert_eq!(title, "netflix".to_string());
    assert_eq!(num, Some(2));

    let (title, num) = split_service_request("Netflix");
    assert_eq!(title, "netflix".to_string());
    assert_eq!(num, None);

    let (title, num) = split_service_request("My Bank 12");
    assert_eq!(title, "my bank".to_string());
    assert_eq!(num, Some(12));

    // A last word that does not read as a byte-sized number belongs to the
    // title.
    let (title, num) = split_service_request("My Service 300");
    assert_eq!(title, "my service 300".to_string());
    assert_eq!(num, None);

    let (title, num) = split_service_request("42");
    assert_eq!(title, "".to_string());
    assert_eq!(num, Some(42));
}

#[test]
fn make_service_label_appends_the_number() {
    assert_eq!(make_service_label("netflix", 2), "netflix2".to_string());
    assert_eq!(make_service_label("netflix", 255), "netflix255".to_string());
    assert_eq!(make_service_label("", 10), "10".to_string());
}

#[test]
fn build_salt_concatenates_user_and_service() {
    assert_eq!(build_salt("alice", "netflix2"), "alicenetflix2".to_string());
}

#[test]
fn key_constructors_and_description() {
    let k = Key::default();
    assert_eq!(key_fields(k), (true, true, true, true));
    assert_eq!(k.to_str(), "lowercase uppercase numbers symbols".to_string());

    let k = Key::from_arr([true, false, true, false]);
    assert_eq!(key_fields(k), (true, false, true, false));
    assert_eq!(k.to_str(), "uppercase numbers ".to_string());

    let k = Key::from_arr([false, true, false, false]);
    assert_eq!(k.to_str(), "lowercase ".to_string());
}
