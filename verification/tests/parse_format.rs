use rust_pop3_client::parse::{
    parse_info_line, parse_message_size_line, parse_stat_line, parse_uid_info_line,
    parse_unique_id_line,
};
use rust_pop3_client::session::{
    command_dele, command_list, command_pass, command_retr, command_top, command_uidl,
    command_user,
};
use rust_pop3_client::text::{parse_u32_field, split_fields, u32_to_dec};
use rust_pop3_client::Pop3Error;

#[test]
fn split_is_on_every_space() {
    let fields = split_fields("a bc  d");
    assert_eq!(vec!["a", "bc", "", "d"], fields);
    assert_eq!(vec![""], split_fields(""));
}

#[test]
fn u32_fields_parse_like_standard_unsigned_integers() {
    assert_eq!(Some(0), parse_u32_field("0"));
    assert_eq!(Some(123), parse_u32_field("123"));
    assert_eq!(Some(123), parse_u32_field("+123"));
    assert_eq!(Some(7), parse_u32_field("007"));
    assert_eq!(Some(u32::MAX), parse_u32_field("4294967295"));
    assert_eq!(None, parse_u32_field("4294967296"));
    assert_eq!(None, parse_u32_field(""));
    assert_eq!(None, parse_u32_field("+"));
    assert_eq!(None, parse_u32_field("-1"));
    assert_eq!(None, parse_u32_field("12a"));
}

#[test]
fn decimal_formatting_is_exact() {
    assert_eq!("0", u32_to_dec(0));
    assert_eq!("10", u32_to_dec(10));
    assert_eq!("2048", u32_to_dec(2048));
    assert_eq!("4294967295", u32_to_dec(u32::MAX));
}

#[test]
fn commands_format_to_their_wire_form() {
    assert_eq!("USER bob\r\n", command_user("bob"));
    assert_eq!("PASS secret\r\n", command_pass("secret"));
    assert_eq!("LIST 5\r\n", command_list(5));
    assert_eq!("RETR 12\r\n", command_retr(12));
    assert_eq!("DELE 7\r\n", command_dele(7));
    assert_eq!("TOP 2 3\r\n", command_top(2, 3));
    assert_eq!("UIDL 4294967295\r\n", command_uidl(u32::MAX));
}

#[test]
fn stat_line_parses_count_and_size() {
    let st = parse_stat_line("+OK 3 9000").unwrap();
    assert_eq!(3, st.message_count);
    assert_eq!(9000, st.maildrop_size);
    assert!(matches!(parse_stat_line("+OK"), Err(Pop3Error::Parse(_))));
    assert!(matches!(parse_stat_line("+OK 3"), Err(Pop3Error::Parse(_))));
    assert!(matches!(parse_stat_line("+OK x 9"), Err(Pop3Error::Parse(_))));
    assert!(matches!(parse_stat_line("+OK 3 y"), Err(Pop3Error::Parse(_))));
}

#[test]
fn size_line_takes_the_third_field() {
    assert_eq!(2048, parse_message_size_line("+OK 5 2048").unwrap());
    assert!(matches!(
        parse_message_size_line("+OK 5"),
        Err(Pop3Error::Parse(_))
    ));
    assert!(matches!(
        parse_message_size_line("+OK 5 big"),
        Err(Pop3Error::Parse(_))
    ));
}

#[test]
fn unique_id_line_takes_the_third_field() {
    assert_eq!("abc", parse_unique_id_line("+OK 5 abc").unwrap());
    assert!(matches!(
        parse_unique_id_line("+OK 5"),
        Err(Pop3Error::Parse(_))
    ));
}

#[test]
fn info_line_is_id_then_size() {
    let info = parse_info_line("1 120").unwrap();
    assert_eq!(1, info.message_id);
    assert_eq!(120, info.message_size);
    assert!(matches!(parse_info_line("1"), Err(Pop3Error::Parse(_))));
    assert!(matches!(parse_info_line("x 120"), Err(Pop3Error::Parse(_))));
}

#[test]
fn uid_info_line_is_id_then_token() {
    let info = parse_uid_info_line("2 tok:en").unwrap();
    assert_eq!(2, info.message_id);
    assert_eq!("tok:en", info.unique_id);
    assert!(matches!(parse_uid_info_line("2"), Err(Pop3Error::Parse(_))));
    assert!(matches!(
        parse_uid_info_line("nope tok"),
        Err(Pop3Error::Parse(_))
    ));
}
