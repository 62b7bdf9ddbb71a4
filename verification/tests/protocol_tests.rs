use tenhou_bot::protocol::{
    build_bye, build_discard, build_gok, build_helo, build_join, build_keepalive, build_n, build_n_meld,
    build_nextready, build_reach, parse_csv_i32, parse_csv_u16,
};

#[test]
fn test_build_helo() {
    let msg = build_helo("NoName");
    assert!(msg.contains("HELO"));
    assert!(msg.contains("NoName"));
}

#[test]
fn test_build_join() {
    let msg = build_join(0, 1);
    assert!(msg.contains("JOIN"));
}

#[test]
fn helo_text_is_exact() {
    assert_eq!(build_helo("NoName"), r#"{"name":"NoName","sx":"M","tag":"HELO"}"#);
    // A name with a quote is escaped as JSON
    assert_eq!(build_helo("a\"b"), r#"{"name":"a\"b","sx":"M","tag":"HELO"}"#);
}

#[test]
fn join_text_is_exact() {
    assert_eq!(build_join(0, 1), r#"{"t":"0,1","tag":"JOIN"}"#);
    assert_eq!(build_join(3, 169), r#"{"t":"3,169","tag":"JOIN"}"#);
}

#[test]
fn fixed_messages() {
    assert_eq!(build_gok(), r#"{"tag":"GOK"}"#);
    assert_eq!(build_nextready(), r#"{"tag":"NEXTREADY"}"#);
    assert_eq!(build_bye(), r#"{"tag":"BYE"}"#);
    assert_eq!(build_keepalive(), r#"{"tag":"Z"}"#);
}

#[test]
fn action_messages() {
    assert_eq!(build_discard(116), r#"{"p":116,"tag":"D"}"#);
    assert_eq!(build_reach(44), r#"{"hai":44,"tag":"REACH"}"#);
    assert_eq!(build_n(7), r#"{"tag":"N","type":7}"#);
    assert_eq!(build_n_meld(3, 12, 17), r#"{"hai0":12,"hai1":17,"tag":"N","type":3}"#);
}

#[test]
fn csv_parsing() {
    assert_eq!(parse_csv_i32("0,0,0,1,2"), vec![0, 0, 0, 1, 2]);
    // A field with a space does not parse, as with std's parse
    assert_eq!(parse_csv_i32("250,-10, 7"), vec![250, -10]);
    assert_eq!(parse_csv_i32("+5,-0"), vec![5, 0]);
    assert_eq!(parse_csv_i32("1,x,3"), vec![1, 3]);
    assert_eq!(parse_csv_i32(""), Vec::<i32>::new());
    assert_eq!(parse_csv_u16("12,16,135"), vec![12, 16, 135]);
    assert_eq!(parse_csv_u16("-1,70000,5"), vec![5]);
}

#[test]
fn printed_i32_lists_read_back() {
    let v: Vec<i32> = vec![1, -2, 0, 2147483647, -2147483648, 35];
    let text = v.iter().map(|x| x.to_string()).collect::<Vec<_>>().join(",");
    assert_eq!(parse_csv_i32(&text), v);
    assert_eq!(parse_csv_i32(""), Vec::<i32>::new());
    assert_eq!(parse_csv_i32("1,-2,x,,3"), vec![1, -2, 3]);
}

#[test]
fn object_messages_in_key_order() {
    assert_eq!(build_helo("a\"b"), r#"{"name":"a\"b","sx":"M","tag":"HELO"}"#);
    assert_eq!(build_n_meld(3, 12, 17), r#"{"hai0":12,"hai1":17,"tag":"N","type":3}"#);
    assert_eq!(build_reach(100), r#"{"hai":100,"tag":"REACH"}"#);
}
