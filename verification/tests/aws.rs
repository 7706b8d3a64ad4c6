use coce::providers::aws::{aws_image_url, image_found, pause_after, to_amazon_key};

#[test]
fn isbn13_to_isbn10() {
    assert_eq!(to_amazon_key("9780821417492"), "0821417495");
}

#[test]
fn isbn10_passthrough() {
    assert_eq!(to_amazon_key("275403143X"), "275403143X");
}

#[test]
fn isbn13_with_dashes_is_converted() {
    assert_eq!(to_amazon_key("978-0-8214-1749-2"), "0821417495");
}

#[test]
fn isbn13_check_digit_x() {
    // 9780306406157 -> core 030640615, weighted sum 145, 145 mod 11 = 2
    assert_eq!(to_amazon_key("9780306406157"), "0306406152");
    // 9781000000100: core 100000010, weighted sum 1*1 + 1*8 = 9 -> "1000000109"
    assert_eq!(to_amazon_key("9781000000100"), "1000000109");
    // core 100000001: 1 + 9 = 10 -> check X
    assert_eq!(to_amazon_key("9781000000019"), "100000001X");
}

#[test]
fn dashes_removed_when_not_isbn13() {
    assert_eq!(to_amazon_key("2-7540-3143-X"), "275403143X");
    assert_eq!(to_amazon_key(""), "");
    assert_eq!(to_amazon_key("---"), "");
}

#[test]
fn thirteen_bytes_counted_not_characters() {
    // 12 characters, 13 bytes: converted; non-digits count 0.
    assert_eq!(to_amazon_key("978é12345678"), "é123456789");
    // 13 characters but 14 bytes: passed through.
    assert_eq!(to_amazon_key("97808214174é2"), "97808214174é2");
}

#[test]
fn image_url_and_status() {
    assert_eq!(
        aws_image_url("0821417495"),
        "https://images-na.ssl-images-amazon.com/images/P/0821417495.01.MZZZZZZZZZ.jpg"
    );
    assert!(image_found(200));
    assert!(image_found(403));
    assert!(!image_found(404));
    assert!(!image_found(500));
}

#[test]
fn pauses_only_between_probes() {
    assert!(pause_after(0, 2));
    assert!(!pause_after(1, 2));
    assert!(!pause_after(0, 1));
    assert!(!pause_after(0, 0));
}
