use qop::theme::{choose_color, digit_value, pair_value, RGBColor, UiStyle};
use qop::tree::BaseEntry;

fn plain_global() -> BaseEntry {
    BaseEntry {
        executable: None,
        path: None,
        args: None,
        env: None,
        background: None,
        foreground: None,
        highlight_accent: None,
        highlight: None,
        accent: None,
        faded: None,
    }
}

#[test]
fn parse_reads_three_pairs() {
    assert_eq!(RGBColor::parse("#121212"), Some(RGBColor { r: 0x12, g: 0x12, b: 0x12 }));
    assert_eq!(RGBColor::parse("#cec0af"), Some(RGBColor { r: 0xce, g: 0xc0, b: 0xaf }));
    assert_eq!(RGBColor::parse("#BF6601"), Some(RGBColor { r: 0xbf, g: 0x66, b: 0x01 }));
    assert_eq!(RGBColor::parse("#000000"), Some(RGBColor { r: 0, g: 0, b: 0 }));
    assert_eq!(RGBColor::parse("#ffffff"), Some(RGBColor { r: 255, g: 255, b: 255 }));
}

#[test]
fn parse_takes_a_plus_sign_for_a_high_digit() {
    assert_eq!(RGBColor::parse("#+f+0+a"), Some(RGBColor { r: 15, g: 0, b: 10 }));
    assert_eq!(
        RGBColor::parse("#+f+0+a"),
        Some(RGBColor {
            r: u8::from_str_radix("+f", 16).unwrap(),
            g: u8::from_str_radix("+0", 16).unwrap(),
            b: u8::from_str_radix("+a", 16).unwrap(),
        })
    );
}

#[test]
fn parse_rejects_what_is_no_colour() {
    for text in [
        "", "#", "121212", "#12121", "#1212121", "x121212", "#12121g", "#1 1212", "#-11212",
        "#++1212", "#1+1212", "#é1234", "#12é", "#１２１２１２",
    ] {
        assert_eq!(RGBColor::parse(text), None, "{text}");
    }
}

#[test]
fn digits_and_pairs() {
    assert_eq!(digit_value('0'), Some(0));
    assert_eq!(digit_value('9'), Some(9));
    assert_eq!(digit_value('a'), Some(10));
    assert_eq!(digit_value('f'), Some(15));
    assert_eq!(digit_value('A'), Some(10));
    assert_eq!(digit_value('F'), Some(15));
    assert_eq!(digit_value('g'), None);
    assert_eq!(digit_value('/'), None);
    assert_eq!(digit_value(':'), None);
    assert_eq!(digit_value('@'), None);
    assert_eq!(digit_value('G'), None);
    assert_eq!(digit_value('`'), None);
    assert_eq!(pair_value('f', 'f'), Some(255));
    assert_eq!(pair_value('1', '0'), Some(16));
    assert_eq!(pair_value('+', '7'), Some(7));
    assert_eq!(pair_value('7', '+'), None);
    assert_eq!(pair_value('-', '7'), None);
}

#[test]
fn pairs_agree_with_the_standard_library() {
    let digits = ['0', '5', '9', 'a', 'c', 'f', 'A', 'F', '+', '-', 'g', ' ', '_'];
    for high in digits {
        for low in digits {
            let text: String = [high, low].iter().collect();
            assert_eq!(pair_value(high, low), u8::from_str_radix(&text, 16).ok(), "{text}");
        }
    }
}

#[test]
fn default_style() {
    let style = UiStyle::default();
    assert_eq!(Some(style.background), RGBColor::parse("#121212"));
    assert_eq!(Some(style.foreground), RGBColor::parse("#cec0af"));
    assert_eq!(Some(style.highlight_accent), RGBColor::parse("#bf6601"));
    assert_eq!(Some(style.highlight), RGBColor::parse("#191511"));
    assert_eq!(Some(style.accent), RGBColor::parse("#663702"));
    assert_eq!(Some(style.faded), RGBColor::parse("#222222"));
}

#[test]
fn themed_without_colours_is_the_default() {
    assert_eq!(UiStyle::themed(&plain_global()), Some(UiStyle::default()));
}

#[test]
fn themed_takes_each_colour_to_its_own_place() {
    let mut global = plain_global();
    global.background = Some("#010101".to_string());
    global.foreground = Some("#020202".to_string());
    global.highlight_accent = Some("#030303".to_string());
    global.highlight = Some("#040404".to_string());
    global.accent = Some("#050505".to_string());
    global.faded = Some("#060606".to_string());
    let grey = |v: u8| RGBColor { r: v, g: v, b: v };
    assert_eq!(
        UiStyle::themed(&global),
        Some(UiStyle {
            background: grey(1),
            foreground: grey(2),
            highlight_accent: grey(3),
            highlight: grey(4),
            accent: grey(5),
            faded: grey(6),
        })
    );
}

#[test]
fn themed_keeps_what_is_not_named() {
    let mut global = plain_global();
    global.accent = Some("#0a0b0c".to_string());
    let style = UiStyle::themed(&global).unwrap();
    assert_eq!(style.accent, RGBColor { r: 10, g: 11, b: 12 });
    assert_eq!(UiStyle { accent: UiStyle::default().accent, ..style }, UiStyle::default());
}

#[test]
fn themed_fails_on_a_bad_colour() {
    let mut global = plain_global();
    global.faded = Some("grey".to_string());
    assert_eq!(UiStyle::themed(&global), None);
}

#[test]
fn choose_color_prefers_the_named_colour() {
    let base = RGBColor { r: 1, g: 2, b: 3 };
    assert_eq!(choose_color(base, &None), Some(base));
    assert_eq!(
        choose_color(base, &Some("#0a0b0c".to_string())),
        Some(RGBColor { r: 10, g: 11, b: 12 })
    );
    assert_eq!(choose_color(base, &Some("nope".to_string())), None);
}
