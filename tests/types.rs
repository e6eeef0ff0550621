use std::str::FromStr;

use d3270::b3270::types::{
    Color, GraphicRendition, PackedAttr, GR_ALL, GR_BLINK, GR_HIGHLIGHT, GR_NO_COPY,
    GR_PRIVATE_USE, GR_SELECTABLE, GR_UNDERLINE, GR_WRAP,
};

#[test]
fn types_from_str_1() {
    assert_eq!(
        GraphicRendition::from_str("underline,blink"),
        Ok(GraphicRendition::from_bits_truncate(GR_BLINK | GR_UNDERLINE))
    )
}

#[test]
fn gr_empty_formats_as_default() {
    assert_eq!(GraphicRendition::empty().to_string(), "default");
    assert_eq!(GraphicRendition::parse("default"), Ok(GraphicRendition::empty()));
}

#[test]
fn gr_formats_in_bit_order() {
    let gr = GraphicRendition::from_bits_truncate(GR_WRAP | GR_UNDERLINE | GR_PRIVATE_USE);
    assert_eq!(gr.to_string(), "underline,private-use,wrap");
    let gr = GraphicRendition::from_bits_truncate(GR_HIGHLIGHT | GR_SELECTABLE);
    assert_eq!(gr.to_string(), "highlight,selectable");
}

#[test]
fn gr_round_trips_every_value() {
    for bits in 0..=GR_ALL {
        let gr = GraphicRendition::from_bits_truncate(bits);
        assert_eq!(GraphicRendition::parse(&gr.to_string()), Ok(gr));
    }
}

#[test]
fn gr_rejects_unknown_names() {
    assert!(GraphicRendition::parse("underline,sparkle").is_err());
    assert!(GraphicRendition::parse("").is_err());
    assert!(GraphicRendition::parse("underline,").is_err());
    assert_eq!(
        GraphicRendition::parse("sparkle"),
        Err("Invalid GR attr name sparkle".to_string())
    );
}

#[test]
fn gr_truncates_undefined_bits() {
    let gr = GraphicRendition::from_bits_truncate(0xFFFF);
    assert_eq!(gr.bits(), 0x3FF);
    assert!(gr.contains(GraphicRendition::from_bits_truncate(GR_NO_COPY)));
}

#[test]
fn color_ordinals() {
    assert_eq!(Color::NeutralBlack.to_u8(), 0);
    assert_eq!(Color::PaleTurquoise.to_u8(), 13);
    assert_eq!(Color::White.to_u8(), 15);
    assert_eq!(Color::from_u8(9), Color::DeepBlue);
    assert_eq!(Color::from_u8(0x1F), Color::White);
    assert_eq!(u8::from(Color::Orange), 10);
    assert_eq!(Color::from(4u8), Color::Green);
    for n in 0..16u8 {
        assert_eq!(Color::from_u8(n).to_u8(), n);
    }
}

#[test]
fn packed_attr_laws() {
    let gr = GraphicRendition::from_bits_truncate(GR_BLINK | GR_WRAP);
    let x = u32::c_pack(Color::Red, Color::Blue, gr);
    assert_eq!(x, 0x0012_0202);
    assert_eq!(x.c_fg(), Color::Red);
    assert_eq!(x.c_bg(), Color::Blue);
    assert_eq!(x.c_gr(), gr);
    let y = x.c_setfg(Color::White);
    assert_eq!(y & !0xF0000, x & !0xF0000);
    assert_eq!(y.c_fg(), Color::White);
    let z = x.c_setbg(Color::Yellow);
    assert_eq!(z & !0xF00000, x & !0xF00000);
    assert_eq!(z.c_bg(), Color::Yellow);
    let w = x.c_setgr(GraphicRendition::empty());
    assert_eq!(w & !0xFFFF, x & !0xFFFF);
    assert_eq!(w.c_gr(), GraphicRendition::empty());
}

#[test]
fn from_str_follows_parse() {
    assert_eq!(GraphicRendition::from_str("default"), Ok(GraphicRendition::empty()));
    assert_eq!(
        GraphicRendition::from_str("blink,bold"),
        Err("Invalid GR attr name bold".to_string())
    );
    assert_eq!(GraphicRendition::from_str(""), Err("Invalid GR attr name ".to_string()));
    let gr = GraphicRendition::from_bits_truncate(GR_HIGHLIGHT | GR_WRAP);
    assert_eq!(GraphicRendition::from_str(&gr.to_string()), Ok(gr));
}
