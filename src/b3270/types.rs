//! Value types shared by the protocol: colors, graphic renditions and the
//! packed cell attribute word.

use vstd::prelude::*;

verus! {

/// The sixteen 3270 colors, with their fixed ordinals 0..15.
#[derive(Clone, Copy, Debug, PartialEq, Eq, Structural)]
pub enum Color {
    NeutralBlack,
    Blue,
    Red,
    Pink,
    Green,
    Turquoise,
    Yellow,
    NeutralWhite,
    Black,
    DeepBlue,
    Orange,
    Purple,
    PaleGreen,
    PaleTurquoise,
    Gray,
    White,
}

/// The ordinal of a color.
pub open spec fn color_ord(c: Color) -> u8 {
    match c {
        Color::NeutralBlack => 0,
        Color::Blue => 1,
        Color::Red => 2,
        Color::Pink => 3,
        Color::Green => 4,
        Color::Turquoise => 5,
        Color::Yellow => 6,
        Color::NeutralWhite => 7,
        Color::Black => 8,
        Color::DeepBlue => 9,
        Color::Orange => 10,
        Color::Purple => 11,
        Color::PaleGreen => 12,
        Color::PaleTurquoise => 13,
        Color::Gray => 14,
        Color::White => 15,
    }
}

/// The color whose ordinal is `n`, for `n` in 0..15.
pub open spec fn color_of_ord(n: u8) -> Color {
    if n == 0 {
        Color::NeutralBlack
    } else if n == 1 {
        Color::Blue
    } else if n == 2 {
        Color::Red
    } else if n == 3 {
        Color::Pink
    } else if n == 4 {
        Color::Green
    } else if n == 5 {
        Color::Turquoise
    } else if n == 6 {
        Color::Yellow
    } else if n == 7 {
        Color::NeutralWhite
    } else if n == 8 {
        Color::Black
    } else if n == 9 {
        Color::DeepBlue
    } else if n == 10 {
        Color::Orange
    } else if n == 11 {
        Color::Purple
    } else if n == 12 {
        Color::PaleGreen
    } else if n == 13 {
        Color::PaleTurquoise
    } else if n == 14 {
        Color::Gray
    } else {
        Color::White
    }
}

impl Color {
    /// The color's ordinal.
    pub fn to_u8(self) -> (r: u8)
        ensures
            r == color_ord(self),
            r < 16,
    {
        match self {
            Color::NeutralBlack => 0,
            Color::Blue => 1,
            Color::Red => 2,
            Color::Pink => 3,
            Color::Green => 4,
            Color::Turquoise => 5,
            Color::Yellow => 6,
            Color::NeutralWhite => 7,
            Color::Black => 8,
            Color::DeepBlue => 9,
            Color::Orange => 10,
            Color::Purple => 11,
            Color::PaleGreen => 12,
            Color::PaleTurquoise => 13,
            Color::Gray => 14,
            Color::White => 15,
        }
    }

    /// The color whose ordinal is the low four bits of `value`.
    pub fn from_u8(value: u8) -> (r: Color)
        ensures
            r == color_of_ord(value & 0xF),
    {
        let n: u8 = value & 0xF;
        if n == 0 {
            Color::NeutralBlack
        } else if n == 1 {
            Color::Blue
        } else if n == 2 {
            Color::Red
        } else if n == 3 {
            Color::Pink
        } else if n == 4 {
            Color::Green
        } else if n == 5 {
            Color::Turquoise
        } else if n == 6 {
            Color::Yellow
        } else if n == 7 {
            Color::NeutralWhite
        } else if n == 8 {
            Color::Black
        } else if n == 9 {
            Color::DeepBlue
        } else if n == 10 {
            Color::Orange
        } else if n == 11 {
            Color::Purple
        } else if n == 12 {
            Color::PaleGreen
        } else if n == 13 {
            Color::PaleTurquoise
        } else if n == 14 {
            Color::Gray
        } else {
            Color::White
        }
    }
}

impl From<Color> for u8 {
    fn from(value: Color) -> (r: u8) {
        value.to_u8()
    }
}

impl vstd::std_specs::convert::FromSpecImpl<Color> for u8 {
    open spec fn obeys_from_spec() -> bool {
        true
    }

    open spec fn from_spec(v: Color) -> u8 {
        color_ord(v)
    }
}

impl From<u8> for Color {
    fn from(value: u8) -> (r: Color) {
        Color::from_u8(value)
    }
}

impl vstd::std_specs::convert::FromSpecImpl<u8> for Color {
    open spec fn obeys_from_spec() -> bool {
        true
    }

    open spec fn from_spec(v: u8) -> Color {
        color_of_ord(v & 0xF)
    }
}

/// A value below 16 is its own low nibble.
pub proof fn lemma_low_nibble(x: u8)
    requires
        x < 16,
    ensures
        x & 0xF == x,
{
    assert(x & 0xF == x) by (bit_vector)
        requires
            x < 16,
    ;
}

/// Every color survives a trip through its ordinal, and every ordinal in
/// 0..15 survives a trip through its color.
pub proof fn lemma_color_ordinal_round_trip(c: Color, n: u8)
    ensures
        color_of_ord(color_ord(c) & 0xF) == c,
        n < 16 ==> color_ord(color_of_ord(n & 0xF)) == n,
{
    lemma_low_nibble(color_ord(c));
    if n < 16 {
        lemma_low_nibble(n);
    }
}

/// Bit of the underline flag.
pub const GR_UNDERLINE: u16 = 0x001;
/// Bit of the blink flag.
pub const GR_BLINK: u16 = 0x002;
/// Bit of the highlight flag.
pub const GR_HIGHLIGHT: u16 = 0x004;
/// Bit of the selectable flag.
pub const GR_SELECTABLE: u16 = 0x008;
/// Bit of the reverse-video flag.
pub const GR_REVERSE: u16 = 0x010;
/// Bit of the wide flag.
pub const GR_WIDE: u16 = 0x020;
/// Bit of the field-order flag.
pub const GR_ORDER: u16 = 0x040;
/// Bit of the private-use flag.
pub const GR_PRIVATE_USE: u16 = 0x080;
/// Bit of the no-copy flag.
pub const GR_NO_COPY: u16 = 0x100;
/// Bit of the wrap flag.
pub const GR_WRAP: u16 = 0x200;
/// All defined graphic rendition bits.
pub const GR_ALL: u16 = 0x3FF;

/// A set of graphic rendition flags: the ten low bits of a `u16`, the
/// others always clear.
#[derive(Clone, Copy, Debug, PartialEq, Eq, Hash, Structural)]
pub struct GraphicRendition {
    bits: u16,
}

impl View for GraphicRendition {
    type V = u16;

    closed spec fn view(&self) -> u16 {
        self.bits
    }
}

/// Whether flag `i` (0..9) is set in `bits`.
pub open spec fn has_flag(bits: u16, i: nat) -> bool {
    i < 10 && (bits >> (i as u16)) & 1 == 1
}

/// The textual name of flag `i`.
pub open spec fn flag_name(i: nat) -> Seq<char> {
    if i == 0 {
        "underline"@
    } else if i == 1 {
        "blink"@
    } else if i == 2 {
        "highlight"@
    } else if i == 3 {
        "selectable"@
    } else if i == 4 {
        "reverse"@
    } else if i == 5 {
        "wide"@
    } else if i == 6 {
        "order"@
    } else if i == 7 {
        "private-use"@
    } else if i == 8 {
        "no-copy"@
    } else {
        "wrap"@
    }
}

/// The names of the flags of `bits` below flag `i`, lowest first.
pub open spec fn names_upto(bits: u16, i: nat) -> Seq<Seq<char>>
    decreases i,
{
    if i == 0 {
        seq![]
    } else {
        let prev = names_upto(bits, (i - 1) as nat);
        if has_flag(bits, (i - 1) as nat) {
            prev.push(flag_name((i - 1) as nat))
        } else {
            prev
        }
    }
}

/// The parts joined with commas.
pub open spec fn join_commas(parts: Seq<Seq<char>>) -> Seq<char>
    decreases parts.len(),
{
    if parts.len() == 0 {
        seq![]
    } else if parts.len() == 1 {
        parts[0]
    } else {
        join_commas(parts.drop_last()) + seq![','] + parts.last()
    }
}

/// The textual form of a rendition: its flag names in bit order, separated
/// by commas, or `default` for the empty set.
pub open spec fn gr_text(bits: u16) -> Seq<char> {
    if bits == 0 {
        "default"@
    } else {
        join_commas(names_upto(bits, 10))
    }
}

/// The index of the last comma in `s`.
pub open spec fn last_comma(s: Seq<char>) -> Option<nat>
    decreases s.len(),
{
    if s.len() == 0 {
        None
    } else if s.last() == ',' {
        Some((s.len() - 1) as nat)
    } else {
        last_comma(s.drop_last())
    }
}

/// The bit of the first flag at or after `i` whose name is `name`.
pub open spec fn flag_from(name: Seq<char>, i: nat) -> Option<u16>
    decreases 10 - i,
{
    if i >= 10 {
        None
    } else if name == flag_name(i) {
        Some(1u16 << (i as u16))
    } else {
        flag_from(name, i + 1)
    }
}

/// Both parts present: their union.
pub open spec fn or_opt(a: Option<u16>, b: Option<u16>) -> Option<u16> {
    match (a, b) {
        (Some(x), Some(y)) => Some(x | y),
        _ => None,
    }
}

/// A comma-separated list of flag names, read as the union of their bits;
/// `None` when some item is not a flag name.
pub open spec fn parse_items(s: Seq<char>) -> Option<u16>
    decreases s.len(),
{
    match last_comma(s) {
        None => flag_from(s, 0),
        Some(k) => if k < s.len() {
            or_opt(parse_items(s.take(k as int)), flag_from(s.skip((k + 1) as int), 0))
        } else {
            None
        },
    }
}

/// The rendition that a text denotes: `default` is the empty set, anything
/// else a comma-separated list of flag names.
pub open spec fn gr_parse(s: Seq<char>) -> Option<u16> {
    if s == "default"@ {
        Some(0)
    } else {
        parse_items(s)
    }
}

impl GraphicRendition {
    #[verifier::type_invariant]
    spec fn valid(self) -> bool {
        self.bits & 0xFC00 == 0
    }

    /// Two renditions with the same bits are the same.
    pub proof fn lemma_view_injective(self, other: GraphicRendition)
        ensures
            self@ == other@ ==> self == other,
    {
    }

    /// The empty set of flags.
    pub fn empty() -> (r: GraphicRendition)
        ensures
            r@ == 0,
    {
        let z: u16 = 0;
        assert(z & 0xFC00 == 0) by (bit_vector)
            requires
                z == 0,
        ;
        GraphicRendition { bits: z }
    }

    /// The flags among `bits`; undefined bits are dropped.
    pub fn from_bits_truncate(bits: u16) -> (r: GraphicRendition)
        ensures
            r@ == bits & GR_ALL,
    {
        let v: u16 = bits & GR_ALL;
        assert(v & 0xFC00 == 0) by (bit_vector)
            requires
                v == bits & 0x3FF,
        ;
        GraphicRendition { bits: v }
    }

    /// The bits of the set.
    pub fn bits(&self) -> (r: u16)
        ensures
            r == self@,
            r & 0xFC00 == 0,
    {
        proof {
            use_type_invariant(self);
        }
        self.bits
    }

    /// Whether no flag is set.
    pub fn is_empty(&self) -> (r: bool)
        ensures
            r == (self@ == 0),
    {
        self.bits == 0
    }

    /// Whether every flag of `other` is set in `self`.
    pub fn contains(&self, other: GraphicRendition) -> (r: bool)
        ensures
            r == (self@ & other@ == other@),
    {
        self.bits & other.bits == other.bits
    }

    /// The flags set in either.
    pub fn union(self, other: GraphicRendition) -> (r: GraphicRendition)
        ensures
            r@ == self@ | other@,
    {
        proof {
            use_type_invariant(self);
            use_type_invariant(other);
        }
        let a = self.bits;
        let b = other.bits;
        let v: u16 = a | b;
        assert(v & 0xFC00 == 0) by (bit_vector)
            requires
                v == a | b,
                a & 0xFC00 == 0,
                b & 0xFC00 == 0,
        ;
        GraphicRendition { bits: v }
    }
}

/// The graphic rendition field of a packed attribute (bits 0..15, read
/// modulo the defined flags).
pub open spec fn attr_gr(x: u32) -> u16 {
    ((x & 0xFFFF) as u16) & GR_ALL
}

/// The foreground ordinal of a packed attribute (bits 16..19).
pub open spec fn attr_fg(x: u32) -> u8 {
    ((x >> 16) & 0xF) as u8
}

/// The background ordinal of a packed attribute (bits 20..23).
pub open spec fn attr_bg(x: u32) -> u8 {
    ((x >> 20) & 0xF) as u8
}

/// `x` with bits 0..15 replaced by `g`.
pub open spec fn with_gr(x: u32, g: u16) -> u32 {
    (x & !0xFFFFu32) | (g as u32)
}

/// `x` with bits 16..19 replaced by the ordinal `f`.
pub open spec fn with_fg(x: u32, f: u8) -> u32 {
    (x & !0xF0000u32) | ((f as u32) << 16)
}

/// `x` with bits 20..23 replaced by the ordinal `b`.
pub open spec fn with_bg(x: u32, b: u8) -> u32 {
    (x & !0xF00000u32) | ((b as u32) << 20)
}

/// The attribute word of the given colors and rendition.
pub open spec fn pack(fg: u8, bg: u8, gr: u16) -> u32 {
    with_gr(with_bg(with_fg(0, fg), bg), gr)
}

/// A packed attribute whose reserved bits and undefined rendition bits are
/// clear.
pub open spec fn valid_attr(x: u32) -> bool {
    x & 0xFF00FC00 == 0
}

/// A cell attribute packed into a `u32`: rendition in bits 0..15,
/// foreground in bits 16..19, background in bits 20..23.
pub trait PackedAttr: Sized {
    fn c_gr(self) -> GraphicRendition;

    fn c_fg(self) -> Color;

    fn c_bg(self) -> Color;

    fn c_setgr(self, gr: GraphicRendition) -> Self;

    fn c_setfg(self, fg: Color) -> Self;

    fn c_setbg(self, bg: Color) -> Self;

    fn c_pack(fg: Color, bg: Color, gr: GraphicRendition) -> Self;
}

impl PackedAttr for u32 {
    fn c_gr(self) -> (r: GraphicRendition)
        ensures
            r@ == attr_gr(self),
    {
        GraphicRendition::from_bits_truncate((self & 0xFFFF) as u16)
    }

    fn c_fg(self) -> (r: Color)
        ensures
            r == color_of_ord(attr_fg(self)),
    {
        let n: u8 = ((self >> 16) & 0xF) as u8;
        proof {
            assert(n & 0xF == n) by (bit_vector)
                requires
                    n == ((self >> 16) & 0xF) as u8,
            ;
        }
        Color::from_u8(n)
    }

    fn c_bg(self) -> (r: Color)
        ensures
            r == color_of_ord(attr_bg(self)),
    {
        let n: u8 = ((self >> 20) & 0xF) as u8;
        proof {
            assert(n & 0xF == n) by (bit_vector)
                requires
                    n == ((self >> 20) & 0xF) as u8,
            ;
        }
        Color::from_u8(n)
    }

    fn c_setgr(self, gr: GraphicRendition) -> (r: u32)
        ensures
            r == with_gr(self, gr@),
    {
        (self & !0xFFFFu32) | (gr.bits() as u32)
    }

    fn c_setfg(self, fg: Color) -> (r: u32)
        ensures
            r == with_fg(self, color_ord(fg)),
    {
        let f = fg.to_u8();
        (self & !0xF0000u32) | ((f as u32) << 16)
    }

    fn c_setbg(self, bg: Color) -> (r: u32)
        ensures
            r == with_bg(self, color_ord(bg)),
    {
        let b = bg.to_u8();
        (self & !0xF00000u32) | ((b as u32) << 20)
    }

    fn c_pack(fg: Color, bg: Color, gr: GraphicRendition) -> (r: u32)
        ensures
            r == pack(color_ord(fg), color_ord(bg), gr@),
    {
        0u32.c_setfg(fg).c_setbg(bg).c_setgr(gr)
    }
}

/// Setting the foreground changes bits 16..19 only.
pub proof fn lemma_with_fg(x: u32, f: u8)
    requires
        f < 16,
    ensures
        with_fg(x, f) & !0xF0000u32 == x & !0xF0000u32,
        attr_fg(with_fg(x, f)) == f,
        attr_bg(with_fg(x, f)) == attr_bg(x),
        attr_gr(with_fg(x, f)) == attr_gr(x),
        valid_attr(x) ==> valid_attr(with_fg(x, f)),
{
    let y = with_fg(x, f);
    assert(y & !0xF0000u32 == x & !0xF0000u32 && ((y >> 16) & 0xF) as u8 == f && ((y >> 20) & 0xF)
        as u8 == ((x >> 20) & 0xF) as u8 && ((y & 0xFFFF) as u16) & 0x3FF == ((x & 0xFFFF) as u16)
        & 0x3FF && (x & 0xFF00FC00 == 0 ==> y & 0xFF00FC00 == 0)) by (bit_vector)
        requires
            f < 16,
            y == (x & !0xF0000u32) | ((f as u32) << 16),
    ;
}

/// Setting the background changes bits 20..23 only.
pub proof fn lemma_with_bg(x: u32, b: u8)
    requires
        b < 16,
    ensures
        with_bg(x, b) & !0xF00000u32 == x & !0xF00000u32,
        attr_bg(with_bg(x, b)) == b,
        attr_fg(with_bg(x, b)) == attr_fg(x),
        attr_gr(with_bg(x, b)) == attr_gr(x),
        valid_attr(x) ==> valid_attr(with_bg(x, b)),
{
    let y = with_bg(x, b);
    assert(y & !0xF00000u32 == x & !0xF00000u32 && ((y >> 20) & 0xF) as u8 == b && ((y >> 16) & 0xF)
        as u8 == ((x >> 16) & 0xF) as u8 && ((y & 0xFFFF) as u16) & 0x3FF == ((x & 0xFFFF) as u16)
        & 0x3FF && (x & 0xFF00FC00 == 0 ==> y & 0xFF00FC00 == 0)) by (bit_vector)
        requires
            b < 16,
            y == (x & !0xF00000u32) | ((b as u32) << 20),
    ;
}

/// Setting the rendition changes bits 0..15 only.
pub proof fn lemma_with_gr(x: u32, g: u16)
    requires
        g & 0xFC00 == 0,
    ensures
        with_gr(x, g) & !0xFFFFu32 == x & !0xFFFFu32,
        attr_gr(with_gr(x, g)) == g,
        attr_fg(with_gr(x, g)) == attr_fg(x),
        attr_bg(with_gr(x, g)) == attr_bg(x),
        valid_attr(x) ==> valid_attr(with_gr(x, g)),
{
    let y = with_gr(x, g);
    assert(y & !0xFFFFu32 == x & !0xFFFFu32 && ((y & 0xFFFF) as u16) & 0x3FF == g && ((y >> 16)
        & 0xF) as u8 == ((x >> 16) & 0xF) as u8 && ((y >> 20) & 0xF) as u8 == ((x >> 20) & 0xF) as u8
        && (x & 0xFF00FC00 == 0 ==> y & 0xFF00FC00 == 0)) by (bit_vector)
        requires
            g & 0xFC00 == 0,
            y == (x & !0xFFFFu32) | (g as u32),
    ;
}

/// The empty rendition has no undefined bits.
pub proof fn lemma_zero_gr()
    ensures
        0u16 & 0xFC00 == 0,
{
    assert(0u16 & 0xFC00 == 0) by (bit_vector);
}

/// Writing all three fields of a valid attribute over any valid attribute
/// gives that attribute.
pub proof fn lemma_overwrite(b: u32, a: u32)
    requires
        valid_attr(a),
        valid_attr(b),
    ensures
        with_gr(with_bg(with_fg(b, attr_fg(a)), attr_bg(a)), attr_gr(a)) == a,
{
    let f = attr_fg(a);
    let g = attr_gr(a);
    let bb = attr_bg(a);
    assert(((((b & !0xF0000u32) | ((f as u32) << 16)) & !0xF00000u32) | ((bb as u32) << 20))
        & !0xFFFFu32 | (g as u32) == a) by (bit_vector)
        requires
            a & 0xFF00FC00 == 0,
            b & 0xFF00FC00 == 0,
            f == ((a >> 16) & 0xF) as u8,
            bb == ((a >> 20) & 0xF) as u8,
            g == ((a & 0xFFFF) as u16) & 0x3FF,
    ;
}

/// The ordinal of the color of a field is the field.
pub proof fn lemma_color_field(n: u8)
    requires
        n < 16,
    ensures
        color_ord(color_of_ord(n)) == n,
{
    lemma_low_nibble(n);
    lemma_color_ordinal_round_trip(Color::Blue, n);
}

/// The fields of an attribute are in range.
pub proof fn lemma_attr_fields(a: u32)
    ensures
        attr_fg(a) < 16,
        attr_bg(a) < 16,
        attr_gr(a) & 0xFC00 == 0,
{
    let f = attr_fg(a);
    let b = attr_bg(a);
    let g = attr_gr(a);
    assert(f < 16 && b < 16 && g & 0xFC00 == 0) by (bit_vector)
        requires
            f == ((a >> 16) & 0xF) as u8,
            b == ((a >> 20) & 0xF) as u8,
            g == ((a & 0xFFFF) as u16) & 0x3FF,
    ;
}

/// Packing and unpacking: a valid triple survives `pack`, and each setter
/// changes only its own field, keeping an attribute valid.
pub proof fn lemma_packed_attr(x: u32, f: u8, b: u8, g: u16)
    requires
        f < 16,
        b < 16,
        g & 0xFC00 == 0,
    ensures
        attr_fg(pack(f, b, g)) == f,
        attr_bg(pack(f, b, g)) == b,
        attr_gr(pack(f, b, g)) == g,
        valid_attr(pack(f, b, g)),
        with_fg(x, f) & !0xF0000u32 == x & !0xF0000u32,
        attr_fg(with_fg(x, f)) == f,
        with_bg(x, b) & !0xF00000u32 == x & !0xF00000u32,
        attr_bg(with_bg(x, b)) == b,
        with_gr(x, g) & !0xFFFFu32 == x & !0xFFFFu32,
        attr_gr(with_gr(x, g)) == g,
        valid_attr(x) ==> valid_attr(with_fg(x, f)) && valid_attr(with_bg(x, b)) && valid_attr(
            with_gr(x, g),
        ),
{
    lemma_with_fg(x, f);
    lemma_with_bg(x, b);
    lemma_with_gr(x, g);
    let z: u32 = 0;
    assert(z & 0xFF00FC00 == 0) by (bit_vector)
        requires
            z == 0,
    ;
    lemma_with_fg(z, f);
    lemma_with_bg(with_fg(z, f), b);
    lemma_with_gr(with_bg(with_fg(z, f), b), g);
    assert(attr_bg(z) == 0 && attr_gr(z) == 0) by (bit_vector)
        requires
            z == 0,
    ;
}

/// `s` holds no comma.
pub open spec fn no_comma(s: Seq<char>) -> bool {
    forall|j: int| 0 <= j < s.len() ==> s[j] != ','
}

/// The name of flag `i`.
fn flag_name_str(i: u16) -> (r: &'static str)
    requires
        i < 10,
    ensures
        r@ == flag_name(i as nat),
{
    if i == 0 {
        "underline"
    } else if i == 1 {
        "blink"
    } else if i == 2 {
        "highlight"
    } else if i == 3 {
        "selectable"
    } else if i == 4 {
        "reverse"
    } else if i == 5 {
        "wide"
    } else if i == 6 {
        "order"
    } else if i == 7 {
        "private-use"
    } else if i == 8 {
        "no-copy"
    } else {
        "wrap"
    }
}

/// Whether the characters `start..end` of `s` spell `name`.
fn segment_is(s: &str, start: usize, end: usize, name: &str) -> (r: bool)
    requires
        start <= end <= s@.len(),
    ensures
        r == (s@.subrange(start as int, end as int) == name@),
{
    let len = name.unicode_len();
    if end - start != len {
        return false;
    }
    let mut j: usize = 0;
    while j < len
        invariant
            start <= end <= s@.len(),
            end - start == len,
            len == name@.len(),
            j <= len,
            forall|m: int| 0 <= m < j ==> s@[start + m] == name@[m],
        decreases len - j,
    {
        if s.get_char(start + j) != name.get_char(j) {
            assert(s@.subrange(start as int, end as int)[j as int] != name@[j as int]);
            return false;
        }
        j += 1;
    }
    assert(s@.subrange(start as int, end as int) =~= name@);
    true
}

/// The bit of the flag named by the characters `start..end` of `s`.
fn flag_lookup(s: &str, start: usize, end: usize) -> (r: Option<u16>)
    requires
        start <= end <= s@.len(),
    ensures
        r == flag_from(s@.subrange(start as int, end as int), 0),
{
    let ghost seg = s@.subrange(start as int, end as int);
    let mut i: u16 = 0;
    while i < 10
        invariant
            i <= 10,
            start <= end <= s@.len(),
            seg == s@.subrange(start as int, end as int),
            flag_from(seg, 0) == flag_from(seg, i as nat),
        decreases 10 - i,
    {
        if segment_is(s, start, end, flag_name_str(i)) {
            return Some(1u16 << i);
        }
        i += 1;
    }
    None
}

/// A flag's bit lies among the defined bits.
proof fn lemma_flag_from_valid(name: Seq<char>, i: nat)
    ensures
        flag_from(name, i) matches Some(b) ==> b & 0xFC00 == 0,
    decreases 10 - i,
{
    if i < 10 {
        let k = i as u16;
        assert(k < 10 ==> (1u16 << k) & 0xFC00 == 0) by (bit_vector);
        lemma_flag_from_valid(name, i + 1);
    }
}

/// A string without commas has no last comma.
proof fn lemma_no_comma(s: Seq<char>)
    requires
        no_comma(s),
    ensures
        last_comma(s) is None,
    decreases s.len(),
{
    if s.len() > 0 {
        assert(no_comma(s.drop_last()));
        lemma_no_comma(s.drop_last());
    }
}

/// The last comma of `a , b` is the one between them when `b` holds none.
proof fn lemma_last_comma_append(a: Seq<char>, b: Seq<char>)
    requires
        no_comma(b),
    ensures
        last_comma(a + seq![','] + b) == Some(a.len()),
    decreases b.len(),
{
    let s = a + seq![','] + b;
    if b.len() > 0 {
        assert(s.drop_last() =~= a + seq![','] + b.drop_last());
        assert(no_comma(b.drop_last()));
        lemma_last_comma_append(a, b.drop_last());
    }
}

/// The last comma of `s` is at `j` when `s[j]` is a comma and none follows.
proof fn lemma_last_comma_at(s: Seq<char>, j: int)
    requires
        0 <= j < s.len(),
        s[j] == ',',
        forall|m: int| j < m < s.len() ==> s[m] != ',',
    ensures
        last_comma(s) == Some(j as nat),
    decreases s.len(),
{
    if j < s.len() - 1 {
        lemma_last_comma_at(s.drop_last(), j);
    }
}

/// A string in which no comma occurs before `end` has no last comma within
/// its first `end` characters.
proof fn lemma_last_comma_none(s: Seq<char>)
    requires
        forall|m: int| 0 <= m < s.len() ==> s[m] != ',',
    ensures
        last_comma(s) is None,
{
    lemma_no_comma(s);
}

/// Each flag name is free of commas, differs from `default`, and is read
/// back as its own bit.
proof fn lemma_flag_name(i: nat)
    requires
        i < 10,
    ensures
        no_comma(flag_name(i)),
        flag_name(i) != "default"@,
        flag_from(flag_name(i), 0) == Some(1u16 << (i as u16)),
{
    reveal_strlit("underline");
    reveal_strlit("blink");
    reveal_strlit("highlight");
    reveal_strlit("selectable");
    reveal_strlit("reverse");
    reveal_strlit("wide");
    reveal_strlit("order");
    reveal_strlit("private-use");
    reveal_strlit("no-copy");
    reveal_strlit("wrap");
    reveal_strlit("default");
    reveal_with_fuel(flag_from, 11);
    assert(flag_name(0).len() == 9);
    assert(flag_name(1).len() == 5);
    assert(flag_name(2).len() == 9);
    assert(flag_name(3).len() == 10);
    assert(flag_name(4).len() == 7);
    assert(flag_name(5).len() == 4);
    assert(flag_name(6).len() == 5);
    assert(flag_name(7).len() == 11);
    assert(flag_name(8).len() == 7);
    assert(flag_name(9).len() == 4);
    assert("default"@.len() == 7);
    assert(flag_name(0) != flag_name(2) && flag_name(1) != flag_name(6) && flag_name(5)
        != flag_name(9) && flag_name(4) != flag_name(8)) by {
        assert(flag_name(0)[0] != flag_name(2)[0]);
        assert(flag_name(1)[0] != flag_name(6)[0]);
        assert(flag_name(5)[1] != flag_name(9)[1]);
        assert(flag_name(4)[0] != flag_name(8)[0]);
    }
    assert(flag_name(4) != "default"@) by {
        assert(flag_name(4)[0] != "default"@[0]);
    }
    assert(flag_name(8) != "default"@) by {
        assert(flag_name(8)[0] != "default"@[0]);
    }
    if i == 0 {
        assert(flag_name(0) != "default"@);
        assert(flag_from(flag_name(0), 0) == Some(1u16 << 0u16));
    } else if i == 1 {
        assert(flag_name(1) != flag_name(0));
        assert(flag_name(1) != "default"@);
        assert(flag_from(flag_name(1), 0) == Some(1u16 << 1u16));
    } else if i == 2 {
        assert(flag_name(2) != flag_name(0));
        assert(flag_name(2) != flag_name(1));
        assert(flag_name(2) != "default"@);
        assert(flag_from(flag_name(2), 0) == Some(1u16 << 2u16));
    } else if i == 3 {
        assert(flag_name(3) != flag_name(0));
        assert(flag_name(3) != flag_name(1));
        assert(flag_name(3) != flag_name(2));
        assert(flag_name(3) != "default"@);
        assert(flag_from(flag_name(3), 0) == Some(1u16 << 3u16));
    } else if i == 4 {
        assert(flag_name(4) != flag_name(0));
        assert(flag_name(4) != flag_name(1));
        assert(flag_name(4) != flag_name(2));
        assert(flag_name(4) != flag_name(3));
        assert(flag_name(4) != "default"@);
        assert(flag_from(flag_name(4), 0) == Some(1u16 << 4u16));
    } else if i == 5 {
        assert(flag_name(5) != flag_name(0));
        assert(flag_name(5) != flag_name(1));
        assert(flag_name(5) != flag_name(2));
        assert(flag_name(5) != flag_name(3));
        assert(flag_name(5) != flag_name(4));
        assert(flag_name(5) != "default"@);
        assert(flag_from(flag_name(5), 0) == Some(1u16 << 5u16));
    } else if i == 6 {
        assert(flag_name(6) != flag_name(0));
        assert(flag_name(6) != flag_name(1));
        assert(flag_name(6) != flag_name(2));
        assert(flag_name(6) != flag_name(3));
        assert(flag_name(6) != flag_name(4));
        assert(flag_name(6) != flag_name(5));
        assert(flag_name(6) != "default"@);
        assert(flag_from(flag_name(6), 0) == Some(1u16 << 6u16));
    } else if i == 7 {
        assert(flag_name(7) != flag_name(0));
        assert(flag_name(7) != flag_name(1));
        assert(flag_name(7) != flag_name(2));
        assert(flag_name(7) != flag_name(3));
        assert(flag_name(7) != flag_name(4));
        assert(flag_name(7) != flag_name(5));
        assert(flag_name(7) != flag_name(6));
        assert(flag_name(7) != "default"@);
        assert(flag_from(flag_name(7), 0) == Some(1u16 << 7u16));
    } else if i == 8 {
        assert(flag_name(8) != flag_name(0));
        assert(flag_name(8) != flag_name(1));
        assert(flag_name(8) != flag_name(2));
        assert(flag_name(8) != flag_name(3));
        assert(flag_name(8) != flag_name(4));
        assert(flag_name(8) != flag_name(5));
        assert(flag_name(8) != flag_name(6));
        assert(flag_name(8) != flag_name(7));
        assert(flag_name(8) != "default"@);
        assert(flag_from(flag_name(8), 0) == Some(1u16 << 8u16));
    } else {
        assert(flag_name(9) != flag_name(0));
        assert(flag_name(9) != flag_name(1));
        assert(flag_name(9) != flag_name(2));
        assert(flag_name(9) != flag_name(3));
        assert(flag_name(9) != flag_name(4));
        assert(flag_name(9) != flag_name(5));
        assert(flag_name(9) != flag_name(6));
        assert(flag_name(9) != flag_name(7));
        assert(flag_name(9) != flag_name(8));
        assert(flag_name(9) != "default"@);
        assert(flag_from(flag_name(9), 0) == Some(1u16 << 9u16));
    }
}

/// The names of the set flags below `i`, read back, give exactly those
/// flags.
proof fn lemma_names_upto(bits: u16, i: nat)
    requires
        i <= 10,
    ensures
        (names_upto(bits, i).len() == 0) == (bits & (((1u16 << (i as u16)) - 1) as u16) == 0),
        names_upto(bits, i).len() > 0 ==> parse_items(join_commas(names_upto(bits, i))) == Some(
            (bits & (((1u16 << (i as u16)) - 1) as u16)) as u16,
        ),
    decreases i,
{
    let k = i as u16;
    if i == 0 {
        assert(bits & (((1u16 << 0u16) - 1) as u16) == 0) by (bit_vector);
    } else {
        let j = (i - 1) as nat;
        let jj = j as u16;
        lemma_names_upto(bits, j);
        let prev = names_upto(bits, j);
        assert(jj < 10);
        assert(jj + 1 == k);
        if has_flag(bits, j) {
            lemma_flag_name(j);
            let name = flag_name(j);
            let cur = prev.push(name);
            assert(names_upto(bits, i) == cur);
            assert(cur.drop_last() =~= prev);
            if prev.len() == 0 {
                assert(join_commas(cur) == name);
                lemma_no_comma(name);
                assert(bits & (((1u16 << jj) - 1) as u16) == 0 && (bits >> jj) & 1 == 1 && jj < 10
                    ==> bits & (((1u16 << (jj + 1)) - 1) as u16) == 1u16 << jj) by (bit_vector);
            } else {
                let a = join_commas(prev);
                assert(join_commas(cur) == a + seq![','] + name);
                lemma_last_comma_append(a, name);
                let s = a + seq![','] + name;
                assert(s.take(a.len() as int) =~= a);
                assert(s.skip((a.len() + 1) as int) =~= name);
                assert((bits >> jj) & 1 == 1 && jj < 10 ==> (bits & (((1u16 << jj) - 1) as u16)) | (
                1u16 << jj) == bits & (((1u16 << (jj + 1)) - 1) as u16)) by (bit_vector);
                assert(jj < 10 ==> (bits & (((1u16 << jj) - 1) as u16) != 0 ==> bits & (((1u16 << (
                jj + 1)) - 1) as u16) != 0)) by (bit_vector);
            }
            assert((bits >> jj) & 1 == 1 && jj < 10 ==> bits & (((1u16 << (jj + 1)) - 1) as u16)
                != 0) by (bit_vector);
        } else {
            assert(names_upto(bits, i) == prev);
            assert(!((bits >> jj) & 1 == 1) && jj < 10 ==> bits & (((1u16 << (jj + 1)) - 1) as u16)
                == bits & (((1u16 << jj) - 1) as u16)) by (bit_vector);
        }
    }
}

/// A join of two or more parts holds a comma.
proof fn lemma_join_has_comma(parts: Seq<Seq<char>>)
    requires
        parts.len() >= 2,
    ensures
        !no_comma(join_commas(parts)),
{
    let a = join_commas(parts.drop_last());
    let s = join_commas(parts);
    assert(s == a + seq![','] + parts.last());
    assert(s[a.len() as int] == ',');
}

/// Formatting and parsing graphic renditions are inverse: every valid set
/// of flags is read back from its text, and the empty set is written and
/// read as `default`.
pub proof fn lemma_gr_round_trip(bits: u16)
    requires
        bits & 0xFC00 == 0,
    ensures
        gr_parse(gr_text(bits)) == Some(bits),
        gr_text(0) == "default"@,
        gr_parse("default"@) == Some(0u16),
{
    if bits != 0 {
        lemma_names_upto(bits, 10);
        assert(bits & 0xFC00 == 0 ==> bits & (((1u16 << 10u16) - 1) as u16) == bits) by (bit_vector);
        assert(bits & 0xFC00 == 0 && bits != 0 ==> bits & (((1u16 << 10u16) - 1) as u16) != 0) by (bit_vector);
        let parts = names_upto(bits, 10);
        let t = join_commas(parts);
        reveal_strlit("default");
        if parts.len() == 1 {
            lemma_parts_are_names(bits, 10);
            assert(is_flag_name(parts[0]));
            let i = choose|i: nat| i < 10 && parts[0] == flag_name(i);
            lemma_flag_name(i);
        } else {
            lemma_join_has_comma(parts);
            assert(no_comma("default"@));
        }
    }
}

/// `x` is the name of one of the flags.
pub open spec fn is_flag_name(x: Seq<char>) -> bool {
    exists|k: nat| k < 10 && x == #[trigger] flag_name(k)
}

/// Every part of `names_upto` is a flag name.
proof fn lemma_parts_are_names(bits: u16, i: nat)
    requires
        i <= 10,
    ensures
        forall|m: int|
            0 <= m < names_upto(bits, i).len() ==> is_flag_name(#[trigger] names_upto(bits, i)[m]),
    decreases i,
{
    if i > 0 {
        lemma_parts_are_names(bits, (i - 1) as nat);
        let prev = names_upto(bits, (i - 1) as nat);
        if has_flag(bits, (i - 1) as nat) {
            let cur = prev.push(flag_name((i - 1) as nat));
            assert forall|m: int| 0 <= m < cur.len() implies is_flag_name(#[trigger] cur[m]) by {
                if m == prev.len() {
                    assert(cur[m] == flag_name((i - 1) as nat));
                } else {
                    assert(cur[m] == prev[m]);
                }
            }
        }
    }
}

/// The characters `a..b` of `s` form an item of a comma-separated list (a
/// maximal run without commas) that names no flag.
pub open spec fn is_bad_item(s: Seq<char>, a: int, b: int) -> bool {
    &&& 0 <= a <= b <= s.len()
    &&& a == 0 || s[a - 1] == ','
    &&& b == s.len() || s[b] == ','
    &&& forall|m: int| a <= m < b ==> s[m] != ','
    &&& flag_from(s.subrange(a, b), 0) is None
}

impl GraphicRendition {
    /// The textual wire form: flag names in bit order separated by commas,
    /// or `default` for the empty set.
    pub fn to_string(&self) -> (r: String)
        ensures
            r@ == gr_text(self@),
    {
        let bits = self.bits();
        if bits == 0 {
            return String::from_str("default");
        }
        let mut out = String::new();
        let mut first = true;
        let mut i: u16 = 0;
        while i < 10
            invariant
                i <= 10,
                out@ == join_commas(names_upto(bits, i as nat)),
                first == (names_upto(bits, i as nat).len() == 0),
            decreases 10 - i,
        {
            let ghost prev = names_upto(bits, i as nat);
            if (bits >> i) & 1 == 1 {
                let name = flag_name_str(i);
                let ghost cur = prev.push(name@);
                assert(cur.drop_last() =~= prev);
                if !first {
                    out.append(",");
                    proof {
                        reveal_strlit(",");
                    }
                }
                out.append(name);
                first = false;
                assert(names_upto(bits, (i + 1) as nat) == cur);
                assert(out@ =~= join_commas(cur));
            }
            i += 1;
        }
        out
    }

    /// Reads the textual wire form: `default`, or a comma-separated list of
    /// flag names.
    pub fn parse(s: &str) -> (r: Result<GraphicRendition, String>)
        ensures
            r matches Ok(g) ==> gr_parse(s@) == Some(g@),
            r is Err <==> gr_parse(s@) is None,
            r matches Err(msg) ==> exists|a: int, b: int|
                is_bad_item(s@, a, b) && msg@ == "Invalid GR attr name "@ + s@.subrange(a, b),
    {
        let n = s.unicode_len();
        if segment_is(s, 0, n, "default") {
            assert(s@.subrange(0, n as int) =~= s@);
            return Ok(GraphicRendition::empty());
        }
        assert(s@.subrange(0, n as int) =~= s@);
        let mut acc: u16 = 0;
        let mut bad: Option<(usize, usize)> = None;
        let mut start: usize = 0;
        assert(acc & 0xFC00 == 0) by (bit_vector)
            requires
                acc == 0,
        ;
        loop
            invariant_except_break
                start == 0 ==> bad is None,
                start > 0 ==> s@[start - 1] == ',',
                start > 0 ==> (if bad is None {
                    parse_items(s@.take(start - 1)) == Some(acc)
                } else {
                    parse_items(s@.take(start - 1)) is None
                }),
            invariant
                n == s@.len(),
                s@ != "default"@,
                start <= n,
                acc & 0xFC00 == 0,
                bad matches Some(p) ==> p.0 <= p.1 <= n && is_bad_item(s@, p.0 as int, p.1 as int),
            ensures
                if bad is None {
                    parse_items(s@) == Some(acc)
                } else {
                    parse_items(s@) is None
                },
            decreases n - start,
        {
            let mut k: usize = start;
            while k < n && s.get_char(k) != ','
                invariant
                    n == s@.len(),
                    start <= k <= n,
                    forall|m: int| start <= m < k ==> s@[m] != ',',
                decreases n - k,
            {
                k += 1;
            }
            let item = flag_lookup(s, start, k);
            proof {
                lemma_flag_from_valid(s@.subrange(start as int, k as int), 0);
                let pre = s@.take(k as int);
                if start > 0 {
                    lemma_last_comma_at(pre, start - 1);
                    assert(pre.take(start - 1) =~= s@.take(start - 1));
                    assert(pre.skip(start as int) =~= s@.subrange(start as int, k as int));
                } else {
                    lemma_last_comma_none(pre);
                    assert(pre =~= s@.subrange(0, k as int));
                }
            }
            match item {
                Some(bit) => {
                    if start == 0 {
                        acc = bit;
                    } else {
                        let prev_acc = acc;
                        let nv: u16 = prev_acc | bit;
                        assert(nv & 0xFC00 == 0) by (bit_vector)
                            requires
                                nv == prev_acc | bit,
                                prev_acc & 0xFC00 == 0,
                                bit & 0xFC00 == 0,
                        ;
                        acc = nv;
                    }
                },
                None => {
                    if bad.is_none() {
                        assert(is_bad_item(s@, start as int, k as int));
                        bad = Some((start, k));
                    }
                },
            }
            if k == n {
                assert(s@.take(k as int) =~= s@);
                break ;
            }
            start = k + 1;
        }
        match bad {
            None => {
                assert(acc & 0x3FF == acc) by (bit_vector)
                    requires
                        acc & 0xFC00 == 0,
                ;
                Ok(GraphicRendition::from_bits_truncate(acc))
            },
            Some((a, b)) => {
                let mut msg = String::from_str("Invalid GR attr name ");
                msg.append(s.substring_char(a, b));
                assert(is_bad_item(s@, a as int, b as int));
                Err(msg)
            },
        }
    }
}

impl std::str::FromStr for GraphicRendition {
    type Err = String;

    fn from_str(s: &str) -> (r: Result<GraphicRendition, String>)
        ensures
            r matches Ok(g) ==> gr_parse(s@) == Some(g@),
            r is Err <==> gr_parse(s@) is None,
            r matches Err(msg) ==> exists|a: int, b: int|
                is_bad_item(s@, a, b) && msg@ == "Invalid GR attr name "@ + s@.subrange(a, b),
    {
        GraphicRendition::parse(s)
    }
}

} // verus!
