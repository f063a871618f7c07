//! Terminal capability probing: the queries and the parsing of the replies.
//!
//! The probe sends five queries in one batch — DA1 (`CSI c`), DA2
//! (`CSI > c`), DA3 (`CSI = c`), XTVERSION (`CSI > q`) and XTGETTCAP
//! (`DCS + q <hex-names> ST`) — and parses the replies into a
//! [`TerminalCapabilities`] report:
//!
//! * DA1 `CSI ? <params> c`: the parameter `52` advertises OSC 52 clipboard
//!   access.
//! * DA2 `CSI > Pp ; Pv ; Pc c`: the last-resort terminal identity.
//! * DA3 `CSI = <params> c` or `DCS ! | <hex> ST`: confirms the terminal is
//!   answering; no capability.
//! * XTVERSION `DCS > | <text> ST`: the authoritative identity.
//! * XTGETTCAP `DCS 1 + r <name> [= <value>] ST` (or `DCS 0 + r ST` for
//!   unknown names): `fullkbd`/`XK` (kitty keyboard), `Su`/`Setulc` (kitty
//!   underline), `Ms` (OSC 52), `XF` (focus events), `PS`/`BE` (bracketed
//!   paste), `TN`/`name` (terminal name). Values may be hexlified (kitty)
//!   or raw (xterm).
//!
//! Every failure is conservative: a report only says "yes" to what the
//! terminal itself answered. Waiting for the replies is the caller's part;
//! [`Prober`] decides, after each chunk of reply bytes, whether to keep
//! waiting.

use vstd::prelude::*;

use crate::backend::dec;
use crate::text::{chars_of, push_char, str_eq, string_of};
use crate::wasm::{utf8_encode, utf8_encode_injective};

verus! {

broadcast use vstd::string::group_string_axioms;

// ---------------------------------------------------------------------------
// UTF-8
// ---------------------------------------------------------------------------

/// The characters of `b` as UTF-8: the text whose UTF-8 encoding is `b`
/// (there is at most one, see [`utf8_encode_injective`]), or `None` when
/// `b` is not valid UTF-8.
pub open spec fn utf8_decode(b: Seq<u8>) -> Option<Seq<char>> {
    if exists|t: Seq<char>| #[trigger] utf8_encode(t) == b {
        Some(choose|t: Seq<char>| #[trigger] utf8_encode(t) == b)
    } else {
        None
    }
}

/// Whether every byte of `b` is ASCII.
pub open spec fn all_ascii(b: Seq<u8>) -> bool {
    forall|i: int| 0 <= i < b.len() ==> #[trigger] b[i] < 0x80
}

/// The characters of ASCII bytes.
pub open spec fn ascii_chars(b: Seq<u8>) -> Seq<char> {
    b.map_values(|x: u8| x as char)
}

/// std's `str::from_utf8`: a text exactly when the bytes are valid UTF-8,
/// namely the text they encode. ASCII bytes are valid UTF-8 and decode to
/// the same code points.
#[verifier::external_body]
fn from_utf8(b: &[u8]) -> (r: Option<String>)
    ensures
        r matches Some(t) ==> utf8_encode(t@) == b@,
        r is None ==> forall|t: Seq<char>| #[trigger] utf8_encode(t) != b@,
        all_ascii(b@) ==> r is Some && r->0@ == ascii_chars(b@),
{
    match std::str::from_utf8(b) {
        Ok(s) => Some(s.to_string()),
        Err(_) => None,
    }
}

/// The text of UTF-8 bytes (see [`utf8_decode`]).
fn decode_utf8(b: &[u8]) -> (r: Option<String>)
    ensures
        r is Some <==> utf8_decode(b@) is Some,
        r is Some ==> utf8_decode(b@) == Some(r->0@),
        all_ascii(b@) ==> r is Some && r->0@ == ascii_chars(b@),
{
    let r = from_utf8(b);
    proof {
        if r is Some {
            let c = choose|c: Seq<char>| #[trigger] utf8_encode(c) == b@;
            utf8_encode_injective(c, r->0@);
        }
    }
    r
}

// ---------------------------------------------------------------------------
// The report
// ---------------------------------------------------------------------------

/// The interactive capability report for a terminal. Every field defaults
/// conservatively to "no": a capability is reported only when the terminal
/// itself said it supports it.
#[derive(Debug)]
pub struct TerminalCapabilities {
    /// Whether any query reply was parsed.
    pub probed: bool,
    /// The terminal's self-reported identity: the XTVERSION text, else the
    /// XTGETTCAP `TN` value, else the raw DA2 `Pp;Pv;Pc` code.
    pub terminal_identity: Option<String>,
    /// Whether the kitty keyboard protocol is supported.
    pub kitty_keyboard: bool,
    /// Whether kitty extended underline styles are supported.
    pub kitty_underline: bool,
    /// Whether OSC 52 clipboard writes are supported.
    pub osc52: bool,
    /// Whether bracketed paste mode is supported.
    pub bracketed_paste: bool,
    /// Whether focus in/out events are supported.
    pub focus_events: bool,
}

/// The value of a [`TerminalCapabilities`].
pub struct CapsView {
    pub probed: bool,
    pub terminal_identity: Option<Seq<char>>,
    pub kitty_keyboard: bool,
    pub kitty_underline: bool,
    pub osc52: bool,
    pub bracketed_paste: bool,
    pub focus_events: bool,
}

impl View for TerminalCapabilities {
    type V = CapsView;

    open spec fn view(&self) -> CapsView {
        CapsView {
            probed: self.probed,
            terminal_identity: crate::style::opt_str_view(self.terminal_identity),
            kitty_keyboard: self.kitty_keyboard,
            kitty_underline: self.kitty_underline,
            osc52: self.osc52,
            bracketed_paste: self.bracketed_paste,
            focus_events: self.focus_events,
        }
    }
}

/// The all-"no" report.
pub open spec fn no_caps() -> CapsView {
    CapsView {
        probed: false,
        terminal_identity: None,
        kitty_keyboard: false,
        kitty_underline: false,
        osc52: false,
        bracketed_paste: false,
        focus_events: false,
    }
}

impl Default for TerminalCapabilities {
    fn default() -> (c: Self)
        ensures
            c@ == no_caps(),
    {
        TerminalCapabilities {
            probed: false,
            terminal_identity: None,
            kitty_keyboard: false,
            kitty_underline: false,
            osc52: false,
            bracketed_paste: false,
            focus_events: false,
        }
    }
}

impl Clone for TerminalCapabilities {
    fn clone(&self) -> (c: Self)
        ensures
            c@ == self@,
    {
        TerminalCapabilities {
            probed: self.probed,
            terminal_identity: crate::style::clone_opt_string(&self.terminal_identity),
            kitty_keyboard: self.kitty_keyboard,
            kitty_underline: self.kitty_underline,
            osc52: self.osc52,
            bracketed_paste: self.bracketed_paste,
            focus_events: self.focus_events,
        }
    }
}

impl PartialEq for TerminalCapabilities {
    fn eq(&self, other: &Self) -> (r: bool) {
        self.probed == other.probed
            && crate::style::opt_string_eq(&self.terminal_identity, &other.terminal_identity)
            && self.kitty_keyboard == other.kitty_keyboard
            && self.kitty_underline == other.kitty_underline
            && self.osc52 == other.osc52
            && self.bracketed_paste == other.bracketed_paste
            && self.focus_events == other.focus_events
    }
}

impl vstd::std_specs::cmp::PartialEqSpecImpl for TerminalCapabilities {
    open spec fn obeys_eq_spec() -> bool {
        true
    }

    open spec fn eq_spec(&self, other: &Self) -> bool {
        self@ == other@
    }
}

impl Eq for TerminalCapabilities {
}

/// Which reply types have been parsed.
#[derive(Debug, Clone, Copy, PartialEq, Eq, Structural)]
pub struct ReplySet {
    pub da1: bool,
    pub da2: bool,
    pub da3: bool,
    pub xtversion: bool,
    pub xtgettcap: bool,
}

impl ReplySet {
    /// Nothing answered yet.
    pub fn new() -> (s: Self)
        ensures
            !s.da1 && !s.da2 && !s.da3 && !s.xtversion && !s.xtgettcap,
    {
        ReplySet { da1: false, da2: false, da3: false, xtversion: false, xtgettcap: false }
    }

    /// Whether every query has been answered.
    pub fn complete(&self) -> (b: bool)
        ensures
            b == (self.da1 && self.da2 && self.da3 && self.xtversion && self.xtgettcap),
    {
        self.da1 && self.da2 && self.da3 && self.xtversion && self.xtgettcap
    }
}

// ---------------------------------------------------------------------------
// The queries
// ---------------------------------------------------------------------------

/// The lowercase hex digit of `d` (0-15).
pub open spec fn hex_char(d: int) -> u8 {
    if d < 10 { (0x30 + d) as u8 } else { (0x61 + d - 10) as u8 }
}

/// Two lowercase hex digits per byte.
pub open spec fn hexlify(b: Seq<u8>) -> Seq<u8>
    decreases b.len(),
{
    if b.len() == 0 {
        Seq::empty()
    } else {
        hexlify(b.drop_last()) + seq![hex_char(b.last() as int / 16), hex_char(b.last() as int % 16)]
    }
}

/// The XTGETTCAP capability names the probe requests.
pub open spec fn tcap_names() -> Seq<Seq<u8>> {
    seq![
        seq![0x66u8, 0x75, 0x6c, 0x6c, 0x6b, 0x62, 0x64],
        seq![0x58u8, 0x4b],
        seq![0x53u8, 0x75],
        seq![0x53u8, 0x65, 0x74, 0x75, 0x6c, 0x63],
        seq![0x4du8, 0x73],
        seq![0x58u8, 0x46],
        seq![0x50u8, 0x53],
        seq![0x54u8, 0x4e],
    ]
}

/// The hexlified names joined by `;`.
pub open spec fn joined_hex(names: Seq<Seq<u8>>) -> Seq<u8>
    decreases names.len(),
{
    if names.len() == 0 {
        Seq::empty()
    } else if names.len() == 1 {
        hexlify(names[0])
    } else {
        joined_hex(names.drop_last()) + seq![0x3bu8] + hexlify(names.last())
    }
}

/// The XTGETTCAP request: `ESC P + q <hex names joined by ;> ESC \`.
pub open spec fn xtgettcap_query_spec() -> Seq<u8> {
    seq![0x1bu8, 0x50, 0x2b, 0x71] + joined_hex(tcap_names()) + seq![0x1bu8, 0x5c]
}

fn hex_digit_byte(d: u8) -> (c: u8)
    requires
        d < 16,
    ensures
        c == hex_char(d as int),
{
    if d < 10 { 0x30 + d } else { 0x61 + d - 10 }
}

fn push_hex(out: &mut Vec<u8>, name: &Vec<u8>)
    ensures
        final(out)@ == old(out)@ + hexlify(name@),
{
    let ghost start = out@;
    let mut i: usize = 0;
    while i < name.len()
        invariant
            i <= name@.len(),
            out@ == start + hexlify(name@.take(i as int)),
        decreases name@.len() - i,
    {
        let b = name[i];
        out.push(hex_digit_byte(b / 16));
        out.push(hex_digit_byte(b % 16));
        assert(name@.take(i + 1).drop_last() =~= name@.take(i as int));
        i += 1;
        assert(out@ =~= start + hexlify(name@.take(i as int)));
    }
    assert(name@.take(name@.len() as int) =~= name@);
}

fn tcap_name_list() -> (v: Vec<Vec<u8>>)
    ensures
        v@.len() == tcap_names().len(),
        forall|i: int| 0 <= i < v@.len() ==> (#[trigger] v@[i])@ == tcap_names()[i],
{
    let mut v: Vec<Vec<u8>> = Vec::new();
    v.push(vec![0x66u8, 0x75, 0x6c, 0x6c, 0x6b, 0x62, 0x64]);
    v.push(vec![0x58u8, 0x4b]);
    v.push(vec![0x53u8, 0x75]);
    v.push(vec![0x53u8, 0x65, 0x74, 0x75, 0x6c, 0x63]);
    v.push(vec![0x4du8, 0x73]);
    v.push(vec![0x58u8, 0x46]);
    v.push(vec![0x50u8, 0x53]);
    v.push(vec![0x54u8, 0x4e]);
    assert(v@[0]@ =~= tcap_names()[0]);
    assert(v@[1]@ =~= tcap_names()[1]);
    assert(v@[2]@ =~= tcap_names()[2]);
    assert(v@[3]@ =~= tcap_names()[3]);
    assert(v@[4]@ =~= tcap_names()[4]);
    assert(v@[5]@ =~= tcap_names()[5]);
    assert(v@[6]@ =~= tcap_names()[6]);
    assert(v@[7]@ =~= tcap_names()[7]);
    v
}

/// The XTGETTCAP request: `DCS + q <hex-encoded capnames> ST`, names joined
/// by `;` (two hex digits per byte).
pub fn xtgettcap_query() -> (q: Vec<u8>)
    ensures
        q@ == xtgettcap_query_spec(),
{
    let names = tcap_name_list();
    let mut q: Vec<u8> = vec![0x1bu8, 0x50, 0x2b, 0x71];
    let ghost start = q@;
    let mut i: usize = 0;
    while i < names.len()
        invariant
            i <= names@.len(),
            names@.len() == tcap_names().len(),
            forall|k: int| 0 <= k < names@.len() ==> (#[trigger] names@[k])@ == tcap_names()[k],
            start == seq![0x1bu8, 0x50, 0x2b, 0x71],
            q@ == start + joined_hex(tcap_names().take(i as int)),
        decreases names@.len() - i,
    {
        let ghost before = q@;
        if i > 0 {
            q.push(0x3b);
        }
        push_hex(&mut q, &names[i]);
        assert(tcap_names().take(i + 1).drop_last() =~= tcap_names().take(i as int));
        i += 1;
        assert(q@ =~= start + joined_hex(tcap_names().take(i as int)));
    }
    assert(tcap_names().take(8) =~= tcap_names());
    q.push(0x1b);
    q.push(0x5c);
    assert(q@ =~= xtgettcap_query_spec());
    q
}

/// The probe queries in stream order: DA1, DA2, DA3, XTVERSION, XTGETTCAP.
pub open spec fn queries_spec() -> Seq<Seq<u8>> {
    seq![
        seq![0x1bu8, 0x5b, 0x63],
        seq![0x1bu8, 0x5b, 0x3e, 0x63],
        seq![0x1bu8, 0x5b, 0x3d, 0x63],
        seq![0x1bu8, 0x5b, 0x3e, 0x71],
        xtgettcap_query_spec(),
    ]
}

/// The probe queries in stream order.
pub fn queries() -> (v: Vec<Vec<u8>>)
    ensures
        v@.len() == 5,
        forall|i: int| 0 <= i < 5 ==> (#[trigger] v@[i])@ == queries_spec()[i],
{
    let mut v: Vec<Vec<u8>> = Vec::new();
    v.push(vec![0x1bu8, 0x5b, 0x63]);
    v.push(vec![0x1bu8, 0x5b, 0x3e, 0x63]);
    v.push(vec![0x1bu8, 0x5b, 0x3d, 0x63]);
    v.push(vec![0x1bu8, 0x5b, 0x3e, 0x71]);
    v.push(xtgettcap_query());
    assert(v@[0]@ =~= queries_spec()[0]);
    assert(v@[1]@ =~= queries_spec()[1]);
    assert(v@[2]@ =~= queries_spec()[2]);
    assert(v@[3]@ =~= queries_spec()[3]);
    v
}

// ---------------------------------------------------------------------------
// Small parsers
// ---------------------------------------------------------------------------

/// `s` split into pieces on `sep` (always at least one piece).
pub open spec fn split_on(s: Seq<char>, sep: char) -> Seq<Seq<char>>
    decreases s.len(),
{
    if s.len() == 0 {
        seq![Seq::empty()]
    } else {
        let prev = split_on(s.drop_last(), sep);
        if s.last() == sep {
            prev.push(Seq::empty())
        } else {
            prev.update(prev.len() - 1, prev.last().push(s.last()))
        }
    }
}

proof fn lemma_split_on_nonempty(s: Seq<char>, sep: char)
    ensures
        split_on(s, sep).len() >= 1,
    decreases s.len(),
{
    if s.len() > 0 {
        lemma_split_on_nonempty(s.drop_last(), sep);
    }
}

/// The value of a hex digit character.
pub open spec fn hex_val(c: char) -> Option<u8> {
    if '0' <= c <= '9' {
        Some((c as u32 - 0x30) as u8)
    } else if 'a' <= c <= 'f' {
        Some((c as u32 - 0x61 + 10) as u8)
    } else if 'A' <= c <= 'F' {
        Some((c as u32 - 0x41 + 10) as u8)
    } else {
        None
    }
}

/// The bytes of a hex-encoded text (two hex digits per byte), or `None`
/// when its length is odd or a character is not a hex digit.
pub open spec fn decode_hex_spec(t: Seq<char>) -> Option<Seq<u8>> {
    if t.len() % 2 != 0 || exists|i: int| 0 <= i < t.len() && #[trigger] hex_val(t[i]) is None {
        None
    } else {
        Some(Seq::new(t.len() / 2, |k: int| (hex_val(t[2 * k])->0 * 16 + hex_val(t[2 * k + 1])->0) as u8))
    }
}

/// The value of a hex digit, or `Err` when it is not one.
pub fn hex_digit(c: char) -> (r: Result<u8, ()>)
    ensures
        r matches Ok(v) ==> hex_val(c) == Some(v),
        r is Err <==> hex_val(c) is None,
{
    if '0' <= c && c <= '9' {
        Ok(((c as u32) - 0x30) as u8)
    } else if 'a' <= c && c <= 'f' {
        Ok(((c as u32) - 0x61 + 10) as u8)
    } else if 'A' <= c && c <= 'F' {
        Ok(((c as u32) - 0x41 + 10) as u8)
    } else {
        Err(())
    }
}

/// Decode a hex-encoded byte string (two hex digits per byte).
pub fn decode_hex(text: &str) -> (r: Result<Vec<u8>, ()>)
    ensures
        r matches Ok(v) ==> decode_hex_spec(text@) == Some(v@),
        r is Err <==> decode_hex_spec(text@) is None,
{
    let cs = chars_of(text);
    if cs.len() % 2 != 0 {
        return Err(());
    }
    let mut out: Vec<u8> = Vec::new();
    let mut k: usize = 0;
    while k < cs.len() / 2
        invariant
            cs@ == text@,
            cs@.len() % 2 == 0,
            k <= cs@.len() / 2,
            out@.len() == k,
            forall|i: int| 0 <= i < 2 * k ==> #[trigger] hex_val(cs@[i]) is Some,
            forall|j: int| 0 <= j < k ==> #[trigger] out@[j]
                == (hex_val(cs@[2 * j])->0 * 16 + hex_val(cs@[2 * j + 1])->0) as u8,
        decreases cs@.len() / 2 - k,
    {
        let hi = match hex_digit(cs[2 * k]) {
            Ok(v) => v,
            Err(()) => {
                assert(hex_val(text@[2 * k as int]) is None);
                return Err(());
            },
        };
        let lo = match hex_digit(cs[2 * k + 1]) {
            Ok(v) => v,
            Err(()) => {
                assert(hex_val(text@[2 * k + 1]) is None);
                return Err(());
            },
        };
        out.push(hi * 16 + lo);
        k += 1;
    }
    assert(forall|i: int| 0 <= i < cs@.len() ==> #[trigger] hex_val(cs@[i]) is Some);
    assert(out@ =~= decode_hex_spec(text@)->0);
    Ok(out)
}

/// The value of a decimal digit string.
pub open spec fn digits_value(d: Seq<char>) -> int
    decreases d.len(),
{
    if d.len() == 0 { 0 } else { digits_value(d.drop_last()) * 10 + (d.last() as int - 0x30) }
}

/// Whether every character is a decimal digit.
pub open spec fn all_digits(d: Seq<char>) -> bool {
    forall|i: int| 0 <= i < d.len() ==> '0' <= #[trigger] d[i] <= '9'
}

/// std's `u16` parse: an optional `+`, then one or more decimal digits,
/// with a value that fits in `u16`.
pub open spec fn parse_u16_spec(s: Seq<char>) -> Option<u16> {
    let d = if s.len() > 0 && s[0] == '+' { s.skip(1) } else { s };
    if d.len() > 0 && all_digits(d) && digits_value(d) <= 65535 {
        Some(digits_value(d) as u16)
    } else {
        None
    }
}

proof fn lemma_digits_value_grows(d: Seq<char>, k: int)
    requires
        0 <= k <= d.len(),
        all_digits(d),
    ensures
        digits_value(d.take(k)) <= digits_value(d),
        digits_value(d.take(k)) >= 0,
    decreases d.len() - k,
{
    if k < d.len() {
        lemma_digits_value_grows(d, k + 1);
        assert(d.take(k + 1).drop_last() =~= d.take(k));
    } else {
        assert(d.take(k) =~= d);
        lemma_digits_nonneg(d);
    }
}

pub proof fn lemma_digits_nonneg(d: Seq<char>)
    requires
        all_digits(d),
    ensures
        digits_value(d) >= 0,
    decreases d.len(),
{
    if d.len() > 0 {
        assert(all_digits(d.drop_last()));
        lemma_digits_nonneg(d.drop_last());
    }
}

/// Parse one CSI parameter (see [`parse_u16_spec`]).
pub fn parse_u16(s: &Vec<char>) -> (r: Option<u16>)
    ensures
        r == parse_u16_spec(s@),
{
    let start: usize = if s.len() > 0 && s[0] == '+' { 1 } else { 0 };
    let ghost d = if s@.len() > 0 && s@[0] == '+' { s@.skip(1) } else { s@ };
    assert(s@.skip(0) =~= s@);
    if start >= s.len() {
        return None;
    }
    let mut acc: u32 = 0;
    let mut i: usize = start;
    while i < s.len()
        invariant
            start <= i <= s@.len(),
            d == s@.skip(start as int),
            d == (if s@.len() > 0 && s@[0] == '+' { s@.skip(1) } else { s@ }),
            start < s@.len(),
            all_digits(s@.subrange(start as int, i as int)),
            acc as int == digits_value(s@.subrange(start as int, i as int)),
            acc <= 65535,
        decreases s@.len() - i,
    {
        let c = s[i];
        if c < '0' || c > '9' {
            assert(!all_digits(d)) by {
                assert(d[i - start] == c);
            }
            return None;
        }
        let v = acc * 10 + ((c as u32) - 0x30);
        assert(s@.subrange(start as int, i + 1).drop_last() =~= s@.subrange(start as int, i as int));
        if v > 65535 {
            proof {
                assert(s@.subrange(start as int, i + 1) =~= d.take(i + 1 - start));
                if all_digits(d) {
                    lemma_digits_value_grows(d, i + 1 - start);
                }
            }
            return None;
        }
        acc = v;
        i += 1;
    }
    assert(s@.subrange(start as int, s@.len() as int) =~= d);
    Some(acc as u16)
}

/// The parameters of a CSI parameter text: its `;`-separated pieces that
/// parse as `u16` (empty and malformed pieces are skipped).
pub open spec fn params_of(segs: Seq<Seq<char>>) -> Seq<u16>
    decreases segs.len(),
{
    if segs.len() == 0 {
        Seq::empty()
    } else {
        params_of(segs.drop_last()) + match parse_u16_spec(segs.last()) {
            Some(v) => seq![v],
            None => Seq::empty(),
        }
    }
}

/// The parameters of a CSI parameter text.
pub open spec fn params_spec(t: Seq<char>) -> Seq<u16> {
    params_of(split_on(t, ';'))
}

/// Parse a CSI parameter string (`1;2`, `84;0;0`, or empty) into `u16`s.
pub fn parse_params(text: &str) -> (v: Vec<u16>)
    ensures
        v@ == params_spec(text@),
{
    let cs = chars_of(text);
    let mut done: Vec<u16> = Vec::new();
    let mut cur: Vec<char> = Vec::new();
    let mut i: usize = 0;
    while i < cs.len()
        invariant
            i <= cs@.len(),
            cs@ == text@,
            split_on(cs@.take(i as int), ';').len() >= 1,
            done@ == params_of(split_on(cs@.take(i as int), ';').drop_last()),
            cur@ == split_on(cs@.take(i as int), ';').last(),
        decreases cs@.len() - i,
    {
        let c = cs[i];
        let ghost before = cs@.take(i as int);
        let ghost prev = split_on(before, ';');
        assert(cs@.take(i + 1).drop_last() =~= before);
        if c == ';' {
            match parse_u16(&cur) {
                Some(v) => done.push(v),
                None => {},
            }
            cur = Vec::new();
            assert(prev.push(Seq::empty()).drop_last() =~= prev);
            assert(prev =~= prev.drop_last().push(prev.last()));
            assert(done@ =~= params_of(prev));
        } else {
            cur.push(c);
            assert(prev.update(prev.len() - 1, prev.last().push(c)).drop_last() =~= prev.drop_last());
        }
        i += 1;
        proof { lemma_split_on_nonempty(cs@.take(i as int), ';'); }
    }
    assert(cs@.take(cs@.len() as int) =~= cs@);
    let ghost segs = split_on(cs@, ';');
    match parse_u16(&cur) {
        Some(v) => done.push(v),
        None => {},
    }
    assert(segs =~= segs.drop_last().push(segs.last()));
    assert(done@ =~= params_of(segs));
    done
}

// ---------------------------------------------------------------------------
// XTGETTCAP payloads
// ---------------------------------------------------------------------------

/// Whether a byte is printable ASCII or a space.
pub open spec fn graphic_or_space(b: u8) -> bool {
    0x20 <= b <= 0x7e
}

/// An XTGETTCAP value: hexlified values (all hex digits, even length,
/// decoding to printable ASCII) are decoded; anything else is used
/// verbatim.
pub open spec fn tcap_value_spec(raw: Seq<char>) -> Seq<char> {
    match decode_hex_spec(raw) {
        Some(bytes) => if forall|i: int| 0 <= i < bytes.len() ==> graphic_or_space(#[trigger] bytes[i]) {
            ascii_chars(bytes)
        } else {
            raw
        },
        None => raw,
    }
}

/// Decode an XTGETTCAP value (see [`tcap_value_spec`]).
pub fn decode_tcap_value(raw: &str) -> (s: String)
    ensures
        s@ == tcap_value_spec(raw@),
{
    match decode_hex(raw) {
        Ok(bytes) => {
            let mut out = String::new();
            let mut i: usize = 0;
            while i < bytes.len()
                invariant
                    i <= bytes@.len(),
                    decode_hex_spec(raw@) == Some(bytes@),
                    out@ == ascii_chars(bytes@.take(i as int)),
                    forall|k: int| 0 <= k < i ==> graphic_or_space(#[trigger] bytes@[k]),
                decreases bytes@.len() - i,
            {
                let b = bytes[i];
                if b < 0x20 || b > 0x7e {
                    return raw.to_owned();
                }
                push_char(&mut out, b as char);
                i += 1;
                assert(out@ =~= ascii_chars(bytes@.take(i as int)));
            }
            assert(bytes@.take(bytes@.len() as int) =~= bytes@);
            out
        },
        Err(()) => raw.to_owned(),
    }
}

/// The index of the first `c` in `s` at or after `i`.
pub open spec fn index_of(s: Seq<char>, c: char, i: int) -> Option<int>
    decreases s.len() - i,
{
    if i < 0 || i >= s.len() {
        None
    } else if s[i] == c {
        Some(i)
    } else {
        index_of(s, c, i + 1)
    }
}

/// A name and its optional value.
pub type TcapPair = (Seq<char>, Option<Seq<char>>);

/// The parse state over the `;`-separated pieces: the finished pairs and
/// the pair being read.
pub struct TcapState {
    pub names: Seq<TcapPair>,
    pub current: Option<TcapPair>,
}

/// The name of a hex-encoded capability name, when it decodes to UTF-8.
pub open spec fn hex_name(t: Seq<char>) -> Option<Seq<char>> {
    match decode_hex_spec(t) {
        Some(bytes) => utf8_decode(bytes),
        None => None,
    }
}

/// One piece: a piece with `=` starts a new name/value pair (a name that
/// does not decode drops the pair); a piece without `=` continues the open
/// pair's value, or starts a valueless pair when none is open.
pub open spec fn tcap_step(st: TcapState, part: Seq<char>) -> TcapState {
    match index_of(part, '=', 0) {
        Some(k) => {
            let names = match st.current { Some(c) => st.names.push(c), None => st.names };
            match hex_name(part.take(k)) {
                Some(name) => TcapState { names, current: Some((name, Some(tcap_value_spec(part.skip(k + 1))))) },
                None => TcapState { names, current: None },
            }
        },
        None => match st.current {
            Some((n, v)) => {
                let v0 = match v { Some(x) => x, None => Seq::empty() };
                TcapState { names: st.names, current: Some((n, Some(v0 + seq![';'] + part))) }
            },
            None => match hex_name(part) {
                Some(name) => TcapState { names: st.names, current: Some((name, None)) },
                None => st,
            },
        },
    }
}

/// The state after the first `n` pieces.
pub open spec fn tcap_fold(parts: Seq<Seq<char>>, n: int) -> TcapState
    decreases n,
{
    if n <= 0 || n > parts.len() {
        TcapState { names: Seq::empty(), current: None }
    } else {
        tcap_step(tcap_fold(parts, n - 1), parts[n - 1])
    }
}

/// The name/value pairs of an XTGETTCAP success payload.
pub open spec fn tcap_pairs_spec(payload: Seq<char>) -> Seq<TcapPair> {
    let parts = split_on(payload, ';');
    let st = tcap_fold(parts, parts.len() as int);
    match st.current { Some(c) => st.names.push(c), None => st.names }
}

/// The view of an exec name/value pair.
pub open spec fn pair_view(p: (String, Option<String>)) -> TcapPair {
    (p.0@, crate::style::opt_str_view(p.1))
}

/// The views of exec name/value pairs.
pub open spec fn pairs_view(v: Seq<(String, Option<String>)>) -> Seq<TcapPair> {
    v.map_values(|p: (String, Option<String>)| pair_view(p))
}

fn hex_name_of(t: &str) -> (r: Option<String>)
    ensures
        r is Some <==> hex_name(t@) is Some,
        r is Some ==> hex_name(t@) == Some(r->0@),
{
    match decode_hex(t) {
        Ok(bytes) => decode_utf8(bytes.as_slice()),
        Err(()) => None,
    }
}

fn first_index(cs: &Vec<char>, c: char) -> (r: Option<usize>)
    ensures
        match r { Some(k) => index_of(cs@, c, 0) == Some(k as int), None => index_of(cs@, c, 0) is None },
        r matches Some(k) ==> k < cs@.len(),
{
    let mut i: usize = 0;
    while i < cs.len()
        invariant
            i <= cs@.len(),
            index_of(cs@, c, 0) == index_of(cs@, c, i as int),
        decreases cs@.len() - i,
    {
        if cs[i] == c {
            return Some(i);
        }
        i += 1;
    }
    None
}

/// Apply one piece to the exec parse state (see [`tcap_step`]).
fn tcap_piece(names: &mut Vec<(String, Option<String>)>, current: &mut Option<(String, Option<String>)>, part: &Vec<char>)
    ensures
        ({
            let st = TcapState {
                names: pairs_view(old(names)@),
                current: match *old(current) { Some(c) => Some(pair_view(c)), None => None },
            };
            let st2 = tcap_step(st, part@);
            &&& pairs_view(final(names)@) == st2.names
            &&& (match *final(current) { Some(c) => Some(pair_view(c)), None => None }) == st2.current
        }),
{
    let ghost old_names = names@;
    match first_index(part, '=') {
        Some(k) => {
            let prev = current.take();
            match prev {
                Some(c) => {
                    names.push(c);
                },
                None => {},
            }
            assert(pairs_view(names@) =~= match *old(current) {
                Some(c) => pairs_view(old_names).push(pair_view(c)),
                None => pairs_view(old_names),
            });
            let n = part.len();
            let name_hex = crate::text::string_of_range(part, 0, k);
            let value_raw = crate::text::string_of_range(part, k + 1, n);
            assert(name_hex@ =~= part@.take(k as int));
            assert(value_raw@ =~= part@.skip(k + 1));
            match hex_name_of(name_hex.as_str()) {
                Some(name) => {
                    let value = decode_tcap_value(value_raw.as_str());
                    *current = Some((name, Some(value)));
                },
                None => {},
            }
        },
        None => {
            let opened = current.is_some();
            if opened {
                let prev = current.take();
                match prev {
                    Some((n, v)) => {
                        let mut value = match v {
                            Some(x) => x,
                            None => String::new(),
                        };
                        push_char(&mut value, ';');
                        let piece = string_of(part);
                        value.append(piece.as_str());
                        *current = Some((n, Some(value)));
                    },
                    None => {},
                }
            } else {
                let piece = string_of(part);
                match hex_name_of(piece.as_str()) {
                    Some(name) => {
                        *current = Some((name, None));
                    },
                    None => {},
                }
            }
        },
    }
}

/// Parse the name/value pairs of an XTGETTCAP success payload: hex-encoded
/// names, each optionally followed by `=<value>`, `;`-separated. A piece
/// with `=` starts a new pair; a piece without one continues the open pair's
/// value (a raw value may itself contain `;`) or, with no pair open, is a
/// valueless (boolean) capability.
pub fn parse_xtgettcap(payload: &str) -> (v: Vec<(String, Option<String>)>)
    ensures
        pairs_view(v@) == tcap_pairs_spec(payload@),
{
    let cs = chars_of(payload);
    let ghost parts = split_on(cs@, ';');
    let mut names: Vec<(String, Option<String>)> = Vec::new();
    let mut current: Option<(String, Option<String>)> = None;
    let mut piece: Vec<char> = Vec::new();
    let mut i: usize = 0;
    let ghost mut done: int = 0;
    assert(pairs_view(names@) =~= Seq::<TcapPair>::empty());
    while i < cs.len()
        invariant
            i <= cs@.len(),
            cs@ == payload@,
            split_on(cs@.take(i as int), ';').len() >= 1,
            ({
                let ps = split_on(cs@.take(i as int), ';');
                let st = tcap_fold(ps, ps.len() - 1);
                &&& pairs_view(names@) == st.names
                &&& (match current { Some(c) => Some(pair_view(c)), None => None }) == st.current
                &&& piece@ == ps.last()
            }),
        decreases cs@.len() - i,
    {
        let c = cs[i];
        let ghost before = cs@.take(i as int);
        let ghost prev = split_on(before, ';');
        assert(cs@.take(i + 1).drop_last() =~= before);
        if c == ';' {
            tcap_piece(&mut names, &mut current, &piece);
            piece = Vec::new();
            proof {
                let ps = prev.push(Seq::<char>::empty());
                assert forall|k: int| 0 <= k <= prev.len() implies tcap_fold(ps, k) == tcap_fold(prev, k) by {
                    lemma_tcap_fold_prefix(prev, ps, k);
                }
            }
        } else {
            piece.push(c);
            proof {
                let ps = prev.update(prev.len() - 1, prev.last().push(c));
                assert forall|k: int| 0 <= k < prev.len() implies tcap_fold(ps, k) == tcap_fold(prev, k) by {
                    lemma_tcap_fold_prefix(prev, ps, k);
                }
            }
        }
        i += 1;
        proof { lemma_split_on_nonempty(cs@.take(i as int), ';'); }
    }
    assert(cs@.take(cs@.len() as int) =~= cs@);
    tcap_piece(&mut names, &mut current, &piece);
    match current {
        Some(c) => names.push(c),
        None => {},
    }
    assert(pairs_view(names@) =~= tcap_pairs_spec(payload@));
    names
}

proof fn lemma_tcap_fold_prefix(a: Seq<Seq<char>>, b: Seq<Seq<char>>, k: int)
    requires
        0 <= k <= a.len(),
        k <= b.len(),
        forall|j: int| 0 <= j < k ==> a[j] == b[j],
    ensures
        tcap_fold(a, k) == tcap_fold(b, k),
    decreases k,
{
    if k > 0 {
        lemma_tcap_fold_prefix(a, b, k - 1);
    }
}

// ---------------------------------------------------------------------------
// Replies
// ---------------------------------------------------------------------------

/// One parsed terminal reply.
#[derive(Debug)]
pub enum Reply {
    /// DA1: `CSI ? <params> c`.
    Da1 { params: Vec<u16> },
    /// DA2: `CSI > Pp ; Pv ; Pc c`.
    Da2 { params: Vec<u16> },
    /// DA3: `CSI = <params> c` or `DCS ! | <hex> ST`.
    Da3,
    /// XTVERSION: `DCS > | <text> ST`.
    XtVersion { text: String },
    /// XTGETTCAP: `DCS 1 + r <name> [= <value>] ST` pairs, or none for
    /// `DCS 0 + r ST`.
    XtGetTcap { names: Vec<(String, Option<String>)> },
}

/// The value of a [`Reply`].
pub enum ReplyView {
    Da1(Seq<u16>),
    Da2(Seq<u16>),
    Da3,
    XtVersion(Seq<char>),
    XtGetTcap(Seq<TcapPair>),
}

impl View for Reply {
    type V = ReplyView;

    open spec fn view(&self) -> ReplyView {
        match self {
            Reply::Da1 { params } => ReplyView::Da1(params@),
            Reply::Da2 { params } => ReplyView::Da2(params@),
            Reply::Da3 => ReplyView::Da3,
            Reply::XtVersion { text } => ReplyView::XtVersion(text@),
            Reply::XtGetTcap { names } => ReplyView::XtGetTcap(pairs_view(names@)),
        }
    }
}

/// The reply a DCS payload carries, if any.
pub open spec fn classify_spec(p: Seq<char>) -> Option<ReplyView> {
    if p.len() > 0 && p[0] == '>' {
        let t = p.skip(1);
        Some(ReplyView::XtVersion(if t.len() > 0 && t[0] == '|' { t.skip(1) } else { t }))
    } else if p.len() > 0 && p[0] == '!' {
        Some(ReplyView::Da3)
    } else if p.len() >= 3 && p[0] == '1' && p[1] == '+' && p[2] == 'r' {
        Some(ReplyView::XtGetTcap(tcap_pairs_spec(p.skip(3))))
    } else if p.len() >= 3 && p[0] == '0' && p[1] == '+' && p[2] == 'r' {
        Some(ReplyView::XtGetTcap(Seq::empty()))
    } else {
        None
    }
}

/// Classify a DCS payload (the text between `ESC P` and the terminator)
/// into a reply.
pub fn classify_dcs_payload(payload: &str) -> (r: Option<Reply>)
    ensures
        match r { Some(x) => classify_spec(payload@) == Some(x@), None => classify_spec(payload@) is None },
{
    let cs = chars_of(payload);
    let n = cs.len();
    if n > 0 && cs[0] == '>' {
        let from: usize = if n > 1 && cs[1] == '|' { 2 } else { 1 };
        let text = crate::text::string_of_range(&cs, from, n);
        assert(text@ =~= (if cs@.skip(1).len() > 0 && cs@.skip(1)[0] == '|' { cs@.skip(1).skip(1) } else { cs@.skip(1) }));
        return Some(Reply::XtVersion { text });
    }
    if n > 0 && cs[0] == '!' {
        return Some(Reply::Da3);
    }
    if n >= 3 && cs[0] == '1' && cs[1] == '+' && cs[2] == 'r' {
        let rest = crate::text::string_of_range(&cs, 3, n);
        assert(rest@ =~= cs@.skip(3));
        return Some(Reply::XtGetTcap { names: parse_xtgettcap(rest.as_str()) });
    }
    if n >= 3 && cs[0] == '0' && cs[1] == '+' && cs[2] == 'r' {
        let names: Vec<(String, Option<String>)> = Vec::new();
        assert(pairs_view(names@) =~= Seq::<TcapPair>::empty());
        return Some(Reply::XtGetTcap { names });
    }
    None
}

/// Whether an XTGETTCAP reply reports support: a capability answered
/// without a value is supported; an explicit value of `0` is not; anything
/// else counts as supported.
pub open spec fn supported_spec(value: Option<Seq<char>>) -> bool {
    value != Some(seq!['0'])
}

/// Whether an XTGETTCAP reply reports support (see [`supported_spec`]).
pub fn supported(value: &Option<String>) -> (b: bool)
    ensures
        b == supported_spec(crate::style::opt_str_view(*value)),
{
    match value {
        Some(v) => {
            let cs = chars_of(v.as_str());
            let zero = cs.len() == 1 && cs[0] == '0';
            assert(zero ==> v@ =~= seq!['0']);
            !zero
        },
        None => true,
    }
}

/// One name/value pair applied to the report.
pub open spec fn apply_pair(caps: CapsView, pair: TcapPair) -> CapsView {
    let (name, value) = pair;
    if name == "fullkbd"@ || name == "XK"@ {
        CapsView { kitty_keyboard: supported_spec(value), ..caps }
    } else if name == "Su"@ || name == "Setulc"@ {
        CapsView { kitty_underline: supported_spec(value), ..caps }
    } else if name == "Ms"@ {
        CapsView { osc52: supported_spec(value), ..caps }
    } else if name == "XF"@ {
        CapsView { focus_events: supported_spec(value), ..caps }
    } else if name == "PS"@ || name == "BE"@ {
        CapsView { bracketed_paste: supported_spec(value), ..caps }
    } else if name == "TN"@ || name == "name"@ {
        if caps.terminal_identity is None { CapsView { terminal_identity: value, ..caps } } else { caps }
    } else {
        caps
    }
}

/// The first `n` pairs applied in order.
pub open spec fn apply_pairs(caps: CapsView, pairs: Seq<TcapPair>, n: int) -> CapsView
    decreases n,
{
    if n <= 0 || n > pairs.len() { caps } else { apply_pair(apply_pairs(caps, pairs, n - 1), pairs[n - 1]) }
}

/// The parameters joined by `;`, each in decimal.
pub open spec fn join_params(ps: Seq<u16>) -> Seq<char>
    decreases ps.len(),
{
    if ps.len() == 0 {
        Seq::empty()
    } else if ps.len() == 1 {
        dec(ps[0] as nat)
    } else {
        join_params(ps.drop_last()) + seq![';'] + dec(ps.last() as nat)
    }
}

/// A reply applied to the report and to the set of answered queries: DA1's
/// parameter 52 marks OSC 52; DA2's code is the identity of last resort;
/// XTVERSION is the authoritative identity; XTGETTCAP pairs set their
/// capabilities (and `TN` the identity when none is known yet).
pub open spec fn apply_spec(reply: ReplyView, caps: CapsView, seen: ReplySet) -> (CapsView, ReplySet) {
    match reply {
        ReplyView::Da1(params) => (CapsView { osc52: caps.osc52 || params.contains(52), ..caps }, ReplySet { da1: true, ..seen }),
        ReplyView::Da2(params) => (
            if caps.terminal_identity is None && params.len() > 0 {
                CapsView { terminal_identity: Some(join_params(params)), ..caps }
            } else {
                caps
            },
            ReplySet { da2: true, ..seen },
        ),
        ReplyView::Da3 => (caps, ReplySet { da3: true, ..seen }),
        ReplyView::XtVersion(text) => (CapsView { terminal_identity: Some(text), ..caps }, ReplySet { xtversion: true, ..seen }),
        ReplyView::XtGetTcap(names) => (apply_pairs(caps, names, names.len() as int), ReplySet { xtgettcap: true, ..seen }),
    }
}

fn name_is(name: &String, a: &str) -> (b: bool)
    ensures
        b == (name@ == a@),
{
    str_eq(name.as_str(), a)
}

fn apply_one_pair(caps: &mut TerminalCapabilities, name: &String, value: &Option<String>)
    ensures
        final(caps)@ == apply_pair(old(caps)@, (name@, crate::style::opt_str_view(*value))),
{
    if name_is(name, "fullkbd") || name_is(name, "XK") {
        caps.kitty_keyboard = supported(value);
    } else if name_is(name, "Su") || name_is(name, "Setulc") {
        caps.kitty_underline = supported(value);
    } else if name_is(name, "Ms") {
        caps.osc52 = supported(value);
    } else if name_is(name, "XF") {
        caps.focus_events = supported(value);
    } else if name_is(name, "PS") || name_is(name, "BE") {
        caps.bracketed_paste = supported(value);
    } else if name_is(name, "TN") || name_is(name, "name") {
        if caps.terminal_identity.is_none() {
            caps.terminal_identity = crate::style::clone_opt_string(value);
        }
    }
}

fn join_params_text(params: &Vec<u16>) -> (s: String)
    ensures
        s@ == join_params(params@),
{
    let mut out = String::new();
    let mut i: usize = 0;
    while i < params.len()
        invariant
            i <= params@.len(),
            out@ == join_params(params@.take(i as int)),
        decreases params@.len() - i,
    {
        if i > 0 {
            push_char(&mut out, ';');
        }
        crate::backend::push_dec(&mut out, params[i] as u32);
        assert(params@.take(i + 1).drop_last() =~= params@.take(i as int));
        i += 1;
        assert(out@ =~= join_params(params@.take(i as int)));
    }
    assert(params@.take(params@.len() as int) =~= params@);
    out
}

fn contains_u16(v: &Vec<u16>, x: u16) -> (b: bool)
    ensures
        b == v@.contains(x),
{
    let mut i: usize = 0;
    while i < v.len()
        invariant
            i <= v@.len(),
            forall|k: int| 0 <= k < i ==> v@[k] != x,
        decreases v@.len() - i,
    {
        if v[i] == x {
            assert(v@[i as int] == x);
            return true;
        }
        i += 1;
    }
    false
}

/// Apply a parsed reply to the capability report (see [`apply_spec`]).
pub fn apply(reply: Reply, caps: &mut TerminalCapabilities, seen: &mut ReplySet)
    ensures
        (final(caps)@, *final(seen)) == apply_spec(reply@, old(caps)@, *old(seen)),
{
    match reply {
        Reply::Da1 { params } => {
            seen.da1 = true;
            let has = contains_u16(&params, 52);
            caps.osc52 = caps.osc52 || has;
        },
        Reply::Da2 { params } => {
            seen.da2 = true;
            if caps.terminal_identity.is_none() && params.len() > 0 {
                caps.terminal_identity = Some(join_params_text(&params));
            }
        },
        Reply::Da3 => {
            seen.da3 = true;
        },
        Reply::XtVersion { text } => {
            seen.xtversion = true;
            caps.terminal_identity = Some(text);
        },
        Reply::XtGetTcap { names } => {
            seen.xtgettcap = true;
            let ghost start = caps@;
            let ghost pv = pairs_view(names@);
            let mut i: usize = 0;
            while i < names.len()
                invariant
                    i <= names@.len(),
                    pv == pairs_view(names@),
                    caps@ == apply_pairs(start, pv, i as int),
                decreases names@.len() - i,
            {
                apply_one_pair(caps, &names[i].0, &names[i].1);
                i += 1;
            }
        },
    }
}

// ---------------------------------------------------------------------------
// Taking replies off the front of the read buffer
// ---------------------------------------------------------------------------

/// The first index at or after `i` holding a CSI final byte (`0x40..=0x7E`).
pub open spec fn csi_final_from(b: Seq<u8>, i: int) -> Option<int>
    decreases b.len() - i,
{
    if i < 0 || i >= b.len() {
        None
    } else if 0x40 <= b[i] <= 0x7e {
        Some(i)
    } else {
        csi_final_from(b, i + 1)
    }
}

/// The first index at or after `i` holding byte `x`.
pub open spec fn byte_from(b: Seq<u8>, x: u8, i: int) -> Option<int>
    decreases b.len() - i,
{
    if i < 0 || i >= b.len() {
        None
    } else if b[i] == x {
        Some(i)
    } else {
        byte_from(b, x, i + 1)
    }
}

/// The first index at or after `i` where `ESC \` starts.
pub open spec fn st_from(b: Seq<u8>, i: int) -> Option<int>
    decreases b.len() - i,
{
    if i < 0 || i + 1 >= b.len() {
        None
    } else if b[i] == 0x1b && b[i + 1] == 0x5c {
        Some(i)
    } else {
        st_from(b, i + 1)
    }
}

/// The text of UTF-8 bytes, or the empty text when they are not UTF-8.
pub open spec fn text_or_empty(b: Seq<u8>) -> Seq<char> {
    match utf8_decode(b) { Some(t) => t, None => Seq::empty() }
}

/// A leading CSI reply (`ESC [` then up to the final byte): the reply, if
/// any, and how many bytes are taken. Only DA replies (final `c`) are
/// parsed; another final byte drains the sequence without a reply; no final
/// byte yet takes nothing.
pub open spec fn take_csi_spec(b: Seq<u8>) -> (Option<ReplyView>, int) {
    match csi_final_from(b, 2) {
        None => (None, 0),
        Some(f) => if b[f] != 0x63 {
            (None, f + 1)
        } else {
            let params = params_spec(text_or_empty(b.subrange(3, f)));
            (if b[2] == 0x3f {
                Some(ReplyView::Da1(params))
            } else if b[2] == 0x3e {
                Some(ReplyView::Da2(params))
            } else if b[2] == 0x3d {
                Some(ReplyView::Da3)
            } else {
                None
            }, f + 1)
        },
    }
}

/// A leading DCS reply (`ESC P <payload> ST`, ST being `0x9C` or `ESC \`):
/// the reply, if any, and how many bytes are taken. No terminator yet, or a
/// payload that is not UTF-8, takes nothing.
pub open spec fn take_dcs_spec(b: Seq<u8>) -> (Option<ReplyView>, int) {
    let ends: Option<(int, int)> = match byte_from(b, 0x9c, 0) {
        Some(i) => Some((i, i)),
        None => match st_from(b, 0) {
            Some(i) => Some((i, i + 1)),
            None => None,
        },
    };
    match ends {
        None => (None, 0),
        Some((pe, de)) => match utf8_decode(b.subrange(2, pe)) {
            None => (None, 0),
            Some(p) => (classify_spec(p), de + 1),
        },
    }
}

/// Whether `b` starts with `ESC` then `x`.
pub open spec fn starts_esc(b: Seq<u8>, x: u8) -> bool {
    b.len() >= 2 && b[0] == 0x1b && b[1] == x
}

/// One reply off the front of the buffer and the number of bytes taken.
pub open spec fn take_reply_spec(b: Seq<u8>) -> (Option<ReplyView>, int) {
    if starts_esc(b, 0x5b) {
        take_csi_spec(b)
    } else if starts_esc(b, 0x50) {
        take_dcs_spec(b)
    } else {
        (None, 0)
    }
}

proof fn lemma_csi_final_in_range(b: Seq<u8>, i: int)
    requires
        0 <= i,
    ensures
        csi_final_from(b, i) matches Some(f) ==> i <= f < b.len() && 0x40 <= b[f] <= 0x7e,
    decreases b.len() - i,
{
    if i < b.len() && !(0x40 <= b[i] <= 0x7e) {
        lemma_csi_final_in_range(b, i + 1);
    }
}

proof fn lemma_byte_from_in_range(b: Seq<u8>, x: u8, i: int)
    requires
        0 <= i,
    ensures
        byte_from(b, x, i) matches Some(f) ==> i <= f < b.len() && b[f] == x,
        byte_from(b, x, i) is None ==> forall|k: int| i <= k < b.len() ==> b[k] != x,
    decreases b.len() - i,
{
    if i < b.len() && b[i] != x {
        lemma_byte_from_in_range(b, x, i + 1);
    }
}

proof fn lemma_st_from_in_range(b: Seq<u8>, i: int)
    requires
        0 <= i,
    ensures
        st_from(b, i) matches Some(f) ==> i <= f && f + 1 < b.len() && b[f] == 0x1b && b[f + 1] == 0x5c,
    decreases b.len() - i,
{
    if i + 1 < b.len() && !(b[i] == 0x1b && b[i + 1] == 0x5c) {
        lemma_st_from_in_range(b, i + 1);
    }
}

/// What `take_reply` takes is within the buffer, and a reply always takes
/// bytes.
pub proof fn lemma_take_in_range(b: Seq<u8>)
    ensures
        0 <= take_reply_spec(b).1 <= b.len(),
        take_reply_spec(b).0 is Some ==> take_reply_spec(b).1 > 0,
{
    lemma_csi_final_in_range(b, 2);
    lemma_byte_from_in_range(b, 0x9c, 0);
    lemma_st_from_in_range(b, 0);
}

/// Every complete reply at the front of the buffer, applied in order: the
/// remaining buffer, the report (marked probed once a reply is parsed), and
/// the answered queries. Stops at the first point where no reply is taken.
pub open spec fn drain_spec(b: Seq<u8>, caps: CapsView, seen: ReplySet) -> (Seq<u8>, CapsView, ReplySet)
    decreases b.len(),
{
    let (r, n) = take_reply_spec(b);
    if 0 <= n <= b.len() {
        match r {
            None => (b.skip(n), caps, seen),
            Some(reply) => if n > 0 {
                let (c2, s2) = apply_spec(reply, CapsView { probed: true, ..caps }, seen);
                drain_spec(b.skip(n), c2, s2)
            } else {
                (b, caps, seen)
            },
        }
    } else {
        (b, caps, seen)
    }
}

fn copy_range(b: &Vec<u8>, from: usize, to: usize) -> (v: Vec<u8>)
    requires
        from <= to <= b@.len(),
    ensures
        v@ == b@.subrange(from as int, to as int),
{
    let mut v: Vec<u8> = Vec::new();
    let mut i = from;
    while i < to
        invariant
            from <= i <= to <= b@.len(),
            v@ == b@.subrange(from as int, i as int),
        decreases to - i,
    {
        v.push(b[i]);
        i += 1;
        assert(v@ =~= b@.subrange(from as int, i as int));
    }
    v
}

fn drop_front(b: &mut Vec<u8>, n: usize)
    requires
        n <= old(b)@.len(),
    ensures
        final(b)@ == old(b)@.skip(n as int),
{
    let len = b.len();
    let rest = copy_range(b, n, len);
    assert(rest@ =~= old(b)@.skip(n as int));
    *b = rest;
}

/// Parse a leading CSI reply (see [`take_csi_spec`]).
pub fn take_csi_reply(buffer: &mut Vec<u8>) -> (r: Option<Reply>)
    requires
        starts_esc(old(buffer)@, 0x5b),
    ensures
        match r { Some(x) => take_csi_spec(old(buffer)@).0 == Some(x@), None => take_csi_spec(old(buffer)@).0 is None },
        final(buffer)@ == old(buffer)@.skip(take_csi_spec(old(buffer)@).1),
{
    let ghost b = buffer@;
    proof { lemma_csi_final_in_range(b, 2); }
    let n = buffer.len();
    let mut i: usize = 2;
    while i < n
        invariant
            2 <= i <= n,
            n == buffer@.len(),
            buffer@ == b,
            csi_final_from(b, 2) == csi_final_from(b, i as int),
        ensures
            2 <= i <= n,
            buffer@ == b,
            i < n ==> csi_final_from(b, 2) == Some(i as int),
            i >= n ==> csi_final_from(b, 2) is None,
        decreases n - i,
    {
        let x = buffer[i];
        if 0x40 <= x && x <= 0x7e {
            break;
        }
        i += 1;
    }
    if i >= n {
        assert(b.skip(0) =~= b);
        return None;
    }
    let final_at = i;
    let kind = buffer[2];
    if buffer[final_at] != 0x63 || !(kind == 0x3f || kind == 0x3e || kind == 0x3d) {
        drop_front(buffer, final_at + 1);
        return None;
    }
    let text_bytes = copy_range(buffer, 3, final_at);
    let params = match decode_utf8(text_bytes.as_slice()) {
        Some(t) => parse_params(t.as_str()),
        None => parse_params(""),
    };
    proof {
        reveal_strlit("");
        assert(""@ =~= Seq::<char>::empty());
    }
    let reply = if kind == 0x3f {
        Some(Reply::Da1 { params })
    } else if kind == 0x3e {
        Some(Reply::Da2 { params })
    } else if kind == 0x3d {
        Some(Reply::Da3)
    } else {
        None
    };
    drop_front(buffer, final_at + 1);
    reply
}

fn find_byte(b: &Vec<u8>, x: u8) -> (r: Option<usize>)
    ensures
        match r { Some(i) => byte_from(b@, x, 0) == Some(i as int), None => byte_from(b@, x, 0) is None },
{
    let mut i: usize = 0;
    while i < b.len()
        invariant
            i <= b@.len(),
            byte_from(b@, x, 0) == byte_from(b@, x, i as int),
        decreases b@.len() - i,
    {
        if b[i] == x {
            return Some(i);
        }
        i += 1;
    }
    None
}

fn find_st(b: &Vec<u8>) -> (r: Option<usize>)
    ensures
        match r { Some(i) => st_from(b@, 0) == Some(i as int), None => st_from(b@, 0) is None },
{
    let n = b.len();
    if n < 2 {
        return None;
    }
    let mut i: usize = 0;
    while i < n - 1
        invariant
            n == b@.len(),
            n >= 2,
            i <= n - 1,
            st_from(b@, 0) == st_from(b@, i as int),
        decreases n - 1 - i,
    {
        if b[i] == 0x1b && b[i + 1] == 0x5c {
            return Some(i);
        }
        i += 1;
    }
    None
}

/// Parse a leading DCS reply (see [`take_dcs_spec`]).
pub fn take_dcs_reply(buffer: &mut Vec<u8>) -> (r: Option<Reply>)
    requires
        starts_esc(old(buffer)@, 0x50),
    ensures
        match r { Some(x) => take_dcs_spec(old(buffer)@).0 == Some(x@), None => take_dcs_spec(old(buffer)@).0 is None },
        final(buffer)@ == old(buffer)@.skip(take_dcs_spec(old(buffer)@).1),
{
    let ghost b = buffer@;
    let n = buffer.len();
    proof {
        lemma_byte_from_in_range(b, 0x9c, 0);
        lemma_st_from_in_range(b, 0);
        assert(b.skip(0) =~= b);
    }
    let (payload_end, drain_end) = match find_byte(buffer, 0x9c) {
        Some(i) => (i, i),
        None => match find_st(buffer) {
            Some(i) => (i, i + 1),
            None => {
                return None;
            },
        },
    };
    let payload_bytes = copy_range(buffer, 2, payload_end);
    let payload = match decode_utf8(payload_bytes.as_slice()) {
        Some(p) => p,
        None => {
            return None;
        },
    };
    let reply = classify_dcs_payload(payload.as_str());
    drop_front(buffer, drain_end + 1);
    reply
}

/// Take one complete reply from the front of `buffer` (see
/// [`take_reply_spec`]).
pub fn take_reply(buffer: &mut Vec<u8>) -> (r: Option<Reply>)
    ensures
        match r { Some(x) => take_reply_spec(old(buffer)@).0 == Some(x@), None => take_reply_spec(old(buffer)@).0 is None },
        final(buffer)@ == old(buffer)@.skip(take_reply_spec(old(buffer)@).1),
{
    let n = buffer.len();
    if n >= 2 && buffer[0] == 0x1b && buffer[1] == 0x5b {
        return take_csi_reply(buffer);
    }
    if n >= 2 && buffer[0] == 0x1b && buffer[1] == 0x50 {
        return take_dcs_reply(buffer);
    }
    assert(buffer@.skip(0) =~= buffer@);
    None
}

/// Parse every complete reply at the front of `buffer`, applying each to
/// `caps` and marking it in `seen` (see [`drain_spec`]).
pub fn drain_replies(buffer: &mut Vec<u8>, caps: &mut TerminalCapabilities, seen: &mut ReplySet)
    ensures
        (final(buffer)@, final(caps)@, *final(seen)) == drain_spec(old(buffer)@, old(caps)@, *old(seen)),
    decreases old(buffer)@.len(),
{
    let ghost b = buffer@;
    proof { lemma_take_in_range(b); }
    match take_reply(buffer) {
        Some(reply) => {
            caps.probed = true;
            apply(reply, caps, seen);
            drain_replies(buffer, caps, seen);
        },
        None => {},
    }
}

// ---------------------------------------------------------------------------
// The probe's decisions
// ---------------------------------------------------------------------------

/// What the probe waits for next.
#[derive(Debug, Clone, Copy, PartialEq, Eq, Structural)]
pub enum ProbeWait {
    /// Every query is answered: wait a short grace for a multi-DCS tail.
    Grace,
    /// Some query is unanswered: wait until the probe's deadline.
    UntilDeadline,
}

/// The probe's parse state: the reply bytes not yet parsed, the report so
/// far, and the answered queries.
pub struct Prober {
    pub buffer: Vec<u8>,
    pub caps: TerminalCapabilities,
    pub seen: ReplySet,
}

/// Whether every query is answered.
pub open spec fn all_answered(s: ReplySet) -> bool {
    s.da1 && s.da2 && s.da3 && s.xtversion && s.xtgettcap
}

impl Prober {
    /// A probe with nothing read yet.
    pub fn new() -> (p: Self)
        ensures
            p.buffer@ == Seq::<u8>::empty(),
            p.caps@ == no_caps(),
            !p.seen.da1 && !p.seen.da2 && !p.seen.da3 && !p.seen.xtversion && !p.seen.xtgettcap,
    {
        Prober { buffer: Vec::new(), caps: TerminalCapabilities::default(), seen: ReplySet::new() }
    }

    /// Append a chunk of reply bytes.
    pub fn receive(&mut self, chunk: &[u8])
        ensures
            final(self).buffer@ == old(self).buffer@ + chunk@,
            final(self).caps@ == old(self).caps@,
            final(self).seen == old(self).seen,
    {
        let ghost start = self.buffer@;
        let ghost c0 = self.caps@;
        let ghost s0 = self.seen;
        let mut i: usize = 0;
        while i < chunk.len()
            invariant
                i <= chunk@.len(),
                self.caps@ == c0,
                self.seen == s0,
                self.buffer@ == start + chunk@.take(i as int),
            decreases chunk@.len() - i,
        {
            self.buffer.push(chunk[i]);
            i += 1;
            assert(self.buffer@ =~= start + chunk@.take(i as int));
        }
        assert(chunk@.take(chunk@.len() as int) =~= chunk@);
    }

    /// Parse every complete reply received so far, then say what to wait
    /// for next.
    pub fn step(&mut self) -> (w: ProbeWait)
        ensures
            (final(self).buffer@, final(self).caps@, final(self).seen)
                == drain_spec(old(self).buffer@, old(self).caps@, old(self).seen),
            w == (if all_answered(final(self).seen) { ProbeWait::Grace } else { ProbeWait::UntilDeadline }),
    {
        drain_replies(&mut self.buffer, &mut self.caps, &mut self.seen);
        if self.seen.complete() { ProbeWait::Grace } else { ProbeWait::UntilDeadline }
    }

    /// The report once reading has stopped: everything received, parsed.
    pub fn finish(self) -> (c: TerminalCapabilities)
        ensures
            c@ == drain_spec(self.buffer@, self.caps@, self.seen).1,
    {
        let mut p = self;
        drain_replies(&mut p.buffer, &mut p.caps, &mut p.seen);
        p.caps
    }
}

// ---------------------------------------------------------------------------
// Laws
// ---------------------------------------------------------------------------

/// Silence is conservative: with nothing received, the report is unchanged
/// (in particular, never marked probed).
pub proof fn nothing_received_changes_nothing(caps: CapsView, seen: ReplySet)
    ensures
        drain_spec(Seq::empty(), caps, seen) == (Seq::<u8>::empty(), caps, seen),
{
    assert(Seq::<u8>::empty().skip(0) =~= Seq::<u8>::empty());
}

/// A query once answered stays answered.
pub proof fn answered_queries_stay_answered(b: Seq<u8>, caps: CapsView, seen: ReplySet)
    ensures
        ({
            let s2 = drain_spec(b, caps, seen).2;
            &&& seen.da1 ==> s2.da1
            &&& seen.da2 ==> s2.da2
            &&& seen.da3 ==> s2.da3
            &&& seen.xtversion ==> s2.xtversion
            &&& seen.xtgettcap ==> s2.xtgettcap
        }),
    decreases b.len(),
{
    let (r, n) = take_reply_spec(b);
    if 0 <= n <= b.len() && r is Some && n > 0 {
        let (c2, s2) = apply_spec(r->0, CapsView { probed: true, ..caps }, seen);
        answered_queries_stay_answered(b.skip(n), c2, s2);
    }
}

proof fn lemma_pairs_keep_identity(caps: CapsView, pairs: Seq<TcapPair>, n: int)
    requires
        caps.terminal_identity is Some,
    ensures
        apply_pairs(caps, pairs, n).terminal_identity == caps.terminal_identity,
    decreases n,
{
    if n > 0 && n <= pairs.len() {
        lemma_pairs_keep_identity(caps, pairs, n - 1);
    }
}

/// Identity precedence: the XTVERSION text always becomes the identity,
/// while the DA2 code and the XTGETTCAP `TN` value never replace an identity
/// already known.
pub proof fn identity_precedence(reply: ReplyView, caps: CapsView, seen: ReplySet)
    ensures
        reply matches ReplyView::XtVersion(t) ==> apply_spec(reply, caps, seen).0.terminal_identity == Some(t),
        (caps.terminal_identity is Some && !(reply is XtVersion))
            ==> apply_spec(reply, caps, seen).0.terminal_identity == caps.terminal_identity,
{
    if caps.terminal_identity is Some {
        match reply {
            ReplyView::XtGetTcap(names) => {
                lemma_pairs_keep_identity(caps, names, names.len() as int);
            },
            _ => {},
        }
    }
}

/// Every capability name the probe queries is applied, and aliases agree:
/// an XTGETTCAP pair for `fullkbd` or `XK` sets kitty keyboard support, for
/// `Su` or `Setulc` kitty underline support, `Ms` OSC 52, `XF` focus
/// events and `PS` or `BE` bracketed paste, each to whether the value
/// reports support; `TN` gives the identity when none is known. Nothing
/// else of the report changes.
pub proof fn queried_names_are_applied(caps: CapsView, v: Option<Seq<char>>)
    ensures
        apply_pair(caps, ("fullkbd"@, v)) == (CapsView { kitty_keyboard: supported_spec(v), ..caps }),
        apply_pair(caps, ("XK"@, v)) == (CapsView { kitty_keyboard: supported_spec(v), ..caps }),
        apply_pair(caps, ("Su"@, v)) == (CapsView { kitty_underline: supported_spec(v), ..caps }),
        apply_pair(caps, ("Setulc"@, v)) == (CapsView { kitty_underline: supported_spec(v), ..caps }),
        apply_pair(caps, ("Ms"@, v)) == (CapsView { osc52: supported_spec(v), ..caps }),
        apply_pair(caps, ("XF"@, v)) == (CapsView { focus_events: supported_spec(v), ..caps }),
        apply_pair(caps, ("PS"@, v)) == (CapsView { bracketed_paste: supported_spec(v), ..caps }),
        apply_pair(caps, ("BE"@, v)) == (CapsView { bracketed_paste: supported_spec(v), ..caps }),
        caps.terminal_identity is None ==> apply_pair(caps, ("TN"@, v)) == (CapsView { terminal_identity: v, ..caps }),
{
    reveal_strlit("fullkbd");
    reveal_strlit("XK");
    reveal_strlit("Su");
    reveal_strlit("Setulc");
    reveal_strlit("Ms");
    reveal_strlit("XF");
    reveal_strlit("PS");
    reveal_strlit("BE");
    reveal_strlit("TN");
    reveal_strlit("name");
    assert("XK"@ != "fullkbd"@) by { assert("XK"@.len() != "fullkbd"@.len()); }
    assert("Su"@ != "fullkbd"@) by { assert("Su"@.len() != "fullkbd"@.len()); }
    assert("Su"@ != "XK"@) by { assert("Su"@[0] != "XK"@[0]); }
    assert("Setulc"@ != "fullkbd"@) by { assert("Setulc"@.len() != "fullkbd"@.len()); }
    assert("Setulc"@ != "XK"@) by { assert("Setulc"@.len() != "XK"@.len()); }
    assert("Setulc"@ != "Su"@) by { assert("Setulc"@.len() != "Su"@.len()); }
    assert("Ms"@ != "fullkbd"@) by { assert("Ms"@.len() != "fullkbd"@.len()); }
    assert("Ms"@ != "XK"@) by { assert("Ms"@[0] != "XK"@[0]); }
    assert("Ms"@ != "Su"@) by { assert("Ms"@[0] != "Su"@[0]); }
    assert("Ms"@ != "Setulc"@) by { assert("Ms"@.len() != "Setulc"@.len()); }
    assert("XF"@ != "fullkbd"@) by { assert("XF"@.len() != "fullkbd"@.len()); }
    assert("XF"@ != "XK"@) by { assert("XF"@[1] != "XK"@[1]); }
    assert("XF"@ != "Su"@) by { assert("XF"@[0] != "Su"@[0]); }
    assert("XF"@ != "Setulc"@) by { assert("XF"@.len() != "Setulc"@.len()); }
    assert("XF"@ != "Ms"@) by { assert("XF"@[0] != "Ms"@[0]); }
    assert("PS"@ != "fullkbd"@) by { assert("PS"@.len() != "fullkbd"@.len()); }
    assert("PS"@ != "XK"@) by { assert("PS"@[0] != "XK"@[0]); }
    assert("PS"@ != "Su"@) by { assert("PS"@[0] != "Su"@[0]); }
    assert("PS"@ != "Setulc"@) by { assert("PS"@.len() != "Setulc"@.len()); }
    assert("PS"@ != "Ms"@) by { assert("PS"@[0] != "Ms"@[0]); }
    assert("PS"@ != "XF"@) by { assert("PS"@[0] != "XF"@[0]); }
    assert("BE"@ != "fullkbd"@) by { assert("BE"@.len() != "fullkbd"@.len()); }
    assert("BE"@ != "XK"@) by { assert("BE"@[0] != "XK"@[0]); }
    assert("BE"@ != "Su"@) by { assert("BE"@[0] != "Su"@[0]); }
    assert("BE"@ != "Setulc"@) by { assert("BE"@.len() != "Setulc"@.len()); }
    assert("BE"@ != "Ms"@) by { assert("BE"@[0] != "Ms"@[0]); }
    assert("BE"@ != "XF"@) by { assert("BE"@[0] != "XF"@[0]); }
    assert("BE"@ != "PS"@) by { assert("BE"@[0] != "PS"@[0]); }
    assert("TN"@ != "fullkbd"@) by { assert("TN"@.len() != "fullkbd"@.len()); }
    assert("TN"@ != "XK"@) by { assert("TN"@[0] != "XK"@[0]); }
    assert("TN"@ != "Su"@) by { assert("TN"@[0] != "Su"@[0]); }
    assert("TN"@ != "Setulc"@) by { assert("TN"@.len() != "Setulc"@.len()); }
    assert("TN"@ != "Ms"@) by { assert("TN"@[0] != "Ms"@[0]); }
    assert("TN"@ != "XF"@) by { assert("TN"@[0] != "XF"@[0]); }
    assert("TN"@ != "PS"@) by { assert("TN"@[0] != "PS"@[0]); }
    assert("TN"@ != "BE"@) by { assert("TN"@[0] != "BE"@[0]); }
}

/// A one-pair XTGETTCAP reply to the probe's `Setulc` query marks kitty
/// underline support exactly as its `Su` alias does, and marks the query
/// answered.
pub proof fn setulc_reply_sets_kitty_underline(caps: CapsView, seen: ReplySet, v: Option<Seq<char>>)
    ensures
        apply_spec(ReplyView::XtGetTcap(seq![("Setulc"@, v)]), caps, seen).0.kitty_underline == supported_spec(v),
        apply_spec(ReplyView::XtGetTcap(seq![("Setulc"@, v)]), caps, seen)
            == apply_spec(ReplyView::XtGetTcap(seq![("Su"@, v)]), caps, seen),
        apply_spec(ReplyView::XtGetTcap(seq![("Setulc"@, v)]), caps, seen).1.xtgettcap,
{
    queried_names_are_applied(caps, v);
    reveal_with_fuel(apply_pairs, 2);
}

} // verus!
