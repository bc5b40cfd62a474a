use relay_queue::text::{
    caption_for, decimal_string, rejection_notice, signed_decimal_string, welcome_reply,
};

#[test]
fn decimal_zero() {
    assert_eq!(decimal_string(0), "0");
}

#[test]
fn decimal_single_digit() {
    assert_eq!(decimal_string(7), "7");
}

#[test]
fn decimal_multi_digit() {
    assert_eq!(decimal_string(1234567890), "1234567890");
}

#[test]
fn decimal_u64_max() {
    assert_eq!(decimal_string(u64::MAX), "18446744073709551615");
}

#[test]
fn signed_decimal_negative() {
    assert_eq!(signed_decimal_string(-123), "-123");
}

#[test]
fn signed_decimal_extremes() {
    assert_eq!(signed_decimal_string(i64::MIN), "-9223372036854775808");
    assert_eq!(signed_decimal_string(i64::MAX), "9223372036854775807");
    assert_eq!(signed_decimal_string(0), "0");
}

#[test]
fn caption_embeds_identifier_as_public_link() {
    assert_eq!(
        caption_for(42),
        "[Music: Reborn](https://t.me/the_ankh_music/42)"
    );
}

#[test]
fn rejection_notice_uses_name_when_known() {
    assert_eq!(
        rejection_notice(99, Some("somebody".to_owned())),
        "Someone tried to use this bot somebody"
    );
}

#[test]
fn rejection_notice_falls_back_to_chat_id() {
    assert_eq!(
        rejection_notice(-1001234, None),
        "Someone tried to use this bot -1001234"
    );
}

#[test]
fn welcome_reply_text() {
    assert_eq!(welcome_reply(), "Welcome! Up and running.");
}
