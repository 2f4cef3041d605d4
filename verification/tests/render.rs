use irclogs::render::nick_color_style;
use irclogs::render::nick_hue;

#[test]
fn test_nick_color_deterministic() {
    let h1 = nick_hue("py1hon");
    let h2 = nick_hue("py1hon");
    assert_eq!(h1, h2);
    assert_ne!(nick_hue("py1hon"), nick_hue("TiCPU"));
}

#[test]
fn test_nick_hue_range() {
    assert!(nick_hue("anyone") < 360);
    assert!(nick_hue("") < 360);
}

#[test]
fn test_nick_color_style_format() {
    let s = nick_color_style("py1hon");
    let expect = format!("color:hsl({},70%,65%)", nick_hue("py1hon"));
    assert_eq!(s, expect);
}
