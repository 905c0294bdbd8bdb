//! Key chords as written in the configuration, such as `"Super + Shift + q"`,
//! `"ctrl+code:38"` or `"super+mouse:272"`.
//!
//! A chord is split at `+`; each part is trimmed, and a part naming a
//! modifier (compared upper-cased) adds it; the last other part is the key.
//! A key written `code:N` is a keycode, `mouse:N` a mouse button (the
//! prefixes compared ignoring ASCII case); any other key is a key name,
//! which the keymap turns into a keysym.

use vstd::prelude::*;
use vstd::string::StrSliceExecFns;
use crate::input::Mods;

verus! {

/// The key of a binding.
#[derive(Clone, Copy, Debug, PartialEq, Eq, Hash, Structural)]
pub enum KeySpec {
    Keysym(u32),
    Keycode(u32),
    Mouse(u32),
}

/// A binding's trigger: the modifiers held and the key.
#[derive(Clone, Copy, Debug, PartialEq, Eq, Hash, Structural)]
pub struct KeyPattern {
    pub mods: Mods,
    pub key: KeySpec,
}

/// The modifiers a chord part can name.
#[derive(Clone, Copy, Debug, PartialEq, Eq)]
pub enum Modifier {
    Ctrl,
    Alt,
    Shift,
    Super,
}

/// The key of a chord as written: a keycode, a mouse button, or a key name.
#[derive(Debug)]
pub enum ChordKey {
    Keycode(u32),
    Mouse(u32),
    Name(String),
}

/// A chord's key by its contents.
pub enum ChordKeyView {
    Keycode(u32),
    Mouse(u32),
    Name(Seq<char>),
}

impl View for ChordKey {
    type V = ChordKeyView;

    open spec fn view(&self) -> ChordKeyView {
        match self {
            ChordKey::Keycode(c) => ChordKeyView::Keycode(*c),
            ChordKey::Mouse(b) => ChordKeyView::Mouse(*b),
            ChordKey::Name(n) => ChordKeyView::Name(n@),
        }
    }
}

/// A parsed chord: the modifiers and the key as written.
#[derive(Debug)]
pub struct Chord {
    pub mods: Mods,
    pub key: ChordKey,
}

/// The keysym that stands for no symbol.
pub const NO_SYMBOL: u32 = 0;

/// Whether `c` is whitespace: Unicode's `White_Space` property.
pub open spec fn is_white_space(c: char) -> bool {
    let u = c as int;
    ||| 0x09 <= u <= 0x0D
    ||| u == 0x20
    ||| u == 0x85
    ||| u == 0xA0
    ||| u == 0x1680
    ||| 0x2000 <= u <= 0x200A
    ||| u == 0x2028
    ||| u == 0x2029
    ||| u == 0x202F
    ||| u == 0x205F
    ||| u == 0x3000
}

/// `s` without leading whitespace.
pub open spec fn trim_start(s: Seq<char>) -> Seq<char>
    decreases s.len(),
{
    if s.len() > 0 && is_white_space(s[0]) {
        trim_start(s.drop_first())
    } else {
        s
    }
}

/// `s` without trailing whitespace.
pub open spec fn trim_end(s: Seq<char>) -> Seq<char>
    decreases s.len(),
{
    if s.len() > 0 && is_white_space(s.last()) {
        trim_end(s.drop_last())
    } else {
        s
    }
}

/// `s` without leading and trailing whitespace.
pub open spec fn trimmed(s: Seq<char>) -> Seq<char> {
    trim_end(trim_start(s))
}

/// Names what `str::to_uppercase` gives back for the characters `s` when
/// they are not all ASCII.
pub uninterp spec fn uppercased(s: Seq<char>) -> Seq<char>;

/// Every character of `s` is ASCII.
pub open spec fn is_ascii_chars(s: Seq<char>) -> bool {
    forall|i: int| 0 <= i < s.len() ==> (s[i] as int) < 128
}

/// `c` with an ASCII small letter taken to its capital.
pub open spec fn ascii_upper_char(c: char) -> char {
    if 'a' <= c && c <= 'z' {
        ((c as int) - 32) as char
    } else {
        c
    }
}

/// The characters `s`, each small ASCII letter taken to its capital.
pub open spec fn ascii_uppercase(s: Seq<char>) -> Seq<char> {
    s.map_values(|c: char| ascii_upper_char(c))
}

/// What `str::to_uppercase` gives for `s`: on ASCII characters, small
/// letters become capitals and the rest stay; otherwise `uppercased`.
pub open spec fn upper_of(s: Seq<char>) -> Seq<char> {
    if is_ascii_chars(s) {
        ascii_uppercase(s)
    } else {
        uppercased(s)
    }
}

/// `str::trim`: the string without leading and trailing whitespace, as
/// Unicode's `White_Space` property defines it.
#[verifier::external_body]
fn trim_str<'a>(s: &'a str) -> (r: &'a str)
    ensures
        r@ == trimmed(s@),
{
    s.trim()
}

/// `str::to_uppercase`: the string upper-cased by Unicode's mapping. On an
/// ASCII string that mapping takes `a` to `z` to `A` to `Z` and keeps every
/// other character; beyond ASCII this contract leaves it to the name.
#[verifier::external_body]
fn to_uppercase_str(s: &str) -> (r: String)
    ensures
        r@ == (if is_ascii_chars(s@) { ascii_uppercase(s@) } else { uppercased(s@) }),
{
    s.to_uppercase()
}

/// The pieces of `s` between `+` characters, in order (one empty piece for
/// an empty string).
pub open spec fn split_plus(s: Seq<char>) -> Seq<Seq<char>>
    decreases s.len(),
{
    if s.len() == 0 {
        seq![Seq::<char>::empty()]
    } else {
        let p = split_plus(s.drop_last());
        if s.last() == '+' {
            p.push(Seq::<char>::empty())
        } else {
            p.update(p.len() - 1, p.last().push(s.last()))
        }
    }
}

/// The modifier named by an upper-cased chord part.
pub open spec fn modifier_of(u: Seq<char>) -> Option<Modifier> {
    if u == "CTRL"@ || u == "CONTROL"@ {
        Some(Modifier::Ctrl)
    } else if u == "ALT"@ || u == "MOD1"@ {
        Some(Modifier::Alt)
    } else if u == "SHIFT"@ {
        Some(Modifier::Shift)
    } else if u == "SUPER"@ || u == "LOGO"@ || u == "WIN"@ || u == "MOD4"@ {
        Some(Modifier::Super)
    } else {
        None
    }
}

/// `m` with modifier `md` held too.
pub open spec fn with_modifier(m: Mods, md: Modifier) -> Mods {
    match md {
        Modifier::Ctrl => Mods { ctrl: true, ..m },
        Modifier::Alt => Mods { alt: true, ..m },
        Modifier::Shift => Mods { shift: true, ..m },
        Modifier::Super => Mods { mod4: true, ..m },
    }
}

/// No modifier held.
pub open spec fn no_mods() -> Mods {
    Mods { alt: false, ctrl: false, shift: false, mod4: false }
}

/// The modifiers and the key name after reading the pieces `ps` in order:
/// a piece that, trimmed and upper-cased, names a modifier adds it; any
/// other piece, trimmed, becomes the key name.
pub open spec fn scan_pieces(ps: Seq<Seq<char>>) -> (Mods, Option<Seq<char>>)
    decreases ps.len(),
{
    if ps.len() == 0 {
        (no_mods(), None)
    } else {
        let (m, k) = scan_pieces(ps.drop_last());
        let t = trimmed(ps.last());
        match modifier_of(upper_of(t)) {
            Some(md) => (with_modifier(m, md), k),
            None => (m, Some(t)),
        }
    }
}

/// The code of `c`, with ASCII capitals taken to small letters.
pub open spec fn ascii_lower_code(c: char) -> int {
    if 65 <= (c as int) <= 90 {
        (c as int) + 32
    } else {
        c as int
    }
}

/// Whether `s` begins with `p`, ASCII case aside (`p` written in small letters).
pub open spec fn starts_with_ignoring_case(s: Seq<char>, p: Seq<char>) -> bool {
    &&& p.len() <= s.len()
    &&& forall|i: int| 0 <= i < p.len() ==> ascii_lower_code(#[trigger] s[i]) == p[i] as int
}

/// Whether every character of `d` is an ASCII digit.
pub open spec fn all_digits(d: Seq<char>) -> bool {
    forall|i: int| 0 <= i < d.len() ==> '0' <= #[trigger] d[i] <= '9'
}

/// The number the ASCII digits `d` write in decimal.
pub open spec fn decimal_value(d: Seq<char>) -> int
    decreases d.len(),
{
    if d.len() == 0 {
        0
    } else {
        decimal_value(d.drop_last()) * 10 + (d.last() as int - '0' as int)
    }
}

/// What `str::parse::<u32>` gives for `s`: an optional `+`, then one or more
/// ASCII digits writing a number that fits in a `u32`.
pub open spec fn u32_of(s: Seq<char>) -> Option<u32> {
    let d = if s.len() > 0 && s[0] == '+' {
        s.skip(1)
    } else {
        s
    };
    if d.len() > 0 && all_digits(d) && decimal_value(d) <= u32::MAX {
        Some(decimal_value(d) as u32)
    } else {
        None
    }
}

/// The key written as `name`: `code:N` a keycode, `mouse:N` a mouse button
/// (none when `N` is not a `u32`), anything else a key name.
pub open spec fn key_of(name: Seq<char>) -> Option<ChordKeyView> {
    if starts_with_ignoring_case(name, "code:"@) {
        match u32_of(name.skip(5)) {
            Some(c) => Some(ChordKeyView::Keycode(c)),
            None => None,
        }
    } else if starts_with_ignoring_case(name, "mouse:"@) {
        match u32_of(name.skip(6)) {
            Some(b) => Some(ChordKeyView::Mouse(b)),
            None => None,
        }
    } else {
        Some(ChordKeyView::Name(name))
    }
}

/// The chord written as `s`: its modifiers and key, if it has a key.
pub open spec fn chord_of(s: Seq<char>) -> Option<(Mods, ChordKeyView)> {
    let (m, k) = scan_pieces(split_plus(s));
    match k {
        None => None,
        Some(name) => match key_of(name) {
            None => None,
            Some(kv) => Some((m, kv)),
        },
    }
}

/// A keysym, or the keysym of its lower-case name when there is one
/// (`lowered` is the keymap's lookup of that name, `NO_SYMBOL` when none).
pub open spec fn lower_keysym(keysym: u32, lowered: u32) -> u32 {
    if lowered == NO_SYMBOL {
        keysym
    } else {
        lowered
    }
}

/// Splitting a longer string gives at least one piece.
proof fn lemma_split_plus_len(s: Seq<char>)
    ensures
        split_plus(s).len() >= 1,
    decreases s.len(),
{
    if s.len() > 0 {
        lemma_split_plus_len(s.drop_last());
    }
}

/// Whether `a` and `b` hold the same characters.
fn same_chars(a: &str, b: &str) -> (r: bool)
    ensures
        r == (a@ == b@),
{
    let n = a.unicode_len();
    if n != b.unicode_len() {
        return false;
    }
    let mut i: usize = 0;
    while i < n
        invariant
            n == a@.len(),
            n == b@.len(),
            i <= n,
            forall|j: int| 0 <= j < i ==> a@[j] == b@[j],
        decreases n - i,
    {
        if a.get_char(i) != b.get_char(i) {
            return false;
        }
        i = i + 1;
    }
    proof {
        assert(a@ =~= b@);
    }
    true
}

/// The modifier named by the upper-cased chord part `upper`.
pub fn modifier_named(upper: &str) -> (r: Option<Modifier>)
    ensures
        r == modifier_of(upper@),
{
    if same_chars(upper, "CTRL") || same_chars(upper, "CONTROL") {
        Some(Modifier::Ctrl)
    } else if same_chars(upper, "ALT") || same_chars(upper, "MOD1") {
        Some(Modifier::Alt)
    } else if same_chars(upper, "SHIFT") {
        Some(Modifier::Shift)
    } else if same_chars(upper, "SUPER") || same_chars(upper, "LOGO") || same_chars(upper, "WIN")
        || same_chars(upper, "MOD4") {
        Some(Modifier::Super)
    } else {
        None
    }
}

/// The code of `c`, with ASCII capitals taken to small letters.
fn lower_code(c: char) -> (r: u32)
    ensures
        r == ascii_lower_code(c),
{
    let u = c as u32;
    if 65 <= u && u <= 90 {
        u + 32
    } else {
        u
    }
}

/// Whether `s` begins with `p`, ASCII case aside (`p` in small letters).
fn starts_with_ci(s: &str, p: &str) -> (r: bool)
    ensures
        r == starts_with_ignoring_case(s@, p@),
{
    let n = p.unicode_len();
    if n > s.unicode_len() {
        return false;
    }
    let mut i: usize = 0;
    while i < n
        invariant
            n == p@.len(),
            n <= s@.len(),
            i <= n,
            forall|j: int| 0 <= j < i ==> ascii_lower_code(#[trigger] s@[j]) == p@[j] as int,
        decreases n - i,
    {
        if lower_code(s.get_char(i)) != p.get_char(i) as u32 {
            return false;
        }
        i = i + 1;
    }
    true
}

/// Digits after more digits write a number at least as large.
proof fn lemma_decimal_grows(d: Seq<char>, k: int)
    requires
        all_digits(d),
        0 <= k <= d.len(),
    ensures
        decimal_value(d.take(k)) <= decimal_value(d),
    decreases d.len() - k,
{
    if k < d.len() {
        lemma_decimal_grows(d, k + 1);
        assert(d.take(k + 1).drop_last() =~= d.take(k));
        assert(decimal_value(d.take(k)) >= 0) by {
            lemma_decimal_nonneg(d.take(k));
        }
    } else {
        assert(d.take(k) =~= d);
    }
}

/// A number written in digits is not negative.
proof fn lemma_decimal_nonneg(d: Seq<char>)
    requires
        all_digits(d),
    ensures
        decimal_value(d) >= 0,
    decreases d.len(),
{
    if d.len() > 0 {
        lemma_decimal_nonneg(d.drop_last());
    }
}

/// The `u32` that `s` writes (see `u32_of`).
pub fn parse_u32(s: &str) -> (r: Option<u32>)
    ensures
        r == u32_of(s@),
{
    let n = s.unicode_len();
    let mut i: usize = 0;
    if n > 0 && s.get_char(0) == '+' {
        i = 1;
    }
    let start = i;
    let ghost d = s@.skip(start as int);
    proof {
        assert(d == (if s@.len() > 0 && s@[0] == '+' { s@.skip(1) } else { s@ }));
    }
    if start >= n {
        return None;
    }
    let mut value: u64 = 0;
    while i < n
        invariant
            n == s@.len(),
            start <= i <= n,
            start < n,
            d == s@.skip(start as int),
            d == (if s@.len() > 0 && s@[0] == '+' { s@.skip(1) } else { s@ }),
            all_digits(d.take(i - start)),
            value == decimal_value(d.take(i - start)),
            value <= u32::MAX,
        decreases n - i,
    {
        let c = s.get_char(i);
        proof {
            assert(d.take(i - start + 1).drop_last() =~= d.take(i - start));
            assert(d[i - start] == c);
        }
        if c < '0' || c > '9' {
            proof {
                assert(!all_digits(d));
            }
            return None;
        }
        let digit = (c as u32 - '0' as u32) as u64;
        value = value * 10 + digit;
        if value > 4294967295 {
            proof {
                assert(all_digits(d.take(i - start + 1)));
                if all_digits(d) {
                    lemma_decimal_grows(d, i - start + 1);
                }
            }
            return None;
        }
        i = i + 1;
    }
    proof {
        assert(d.take(n - start) =~= d);
    }
    Some(value as u32)
}

/// The key written as `name` (see `key_of`).
pub fn chord_key(name: &str) -> (r: Option<ChordKey>)
    ensures
        match r {
            Some(k) => key_of(name@) == Some(k@),
            None => key_of(name@) is None,
        },
{
    let n = name.unicode_len();
    if starts_with_ci(name, "code:") {
        proof {
            reveal_strlit("code:");
        }
        match parse_u32(name.substring_char(5, n)) {
            Some(c) => Some(ChordKey::Keycode(c)),
            None => None,
        }
    } else if starts_with_ci(name, "mouse:") {
        proof {
            reveal_strlit("mouse:");
        }
        match parse_u32(name.substring_char(6, n)) {
            Some(b) => Some(ChordKey::Mouse(b)),
            None => None,
        }
    } else {
        Some(ChordKey::Name(name.to_owned()))
    }
}

/// Reads one chord part: a modifier adds to `mods`, any other part becomes
/// the key name.
fn read_part<'a>(part: &'a str, mods: &mut Mods, key: &mut Option<&'a str>)
    ensures
        ({
            let t = trimmed(part@);
            match modifier_of(upper_of(t)) {
                Some(md) => *final(mods) == with_modifier(*old(mods), md) && key_view(*final(key)) == key_view(*old(key)),
                None => *final(mods) == *old(mods) && key_view(*final(key)) == Some(t),
            }
        }),
{
    let t = trim_str(part);
    let upper = to_uppercase_str(t);
    match modifier_named(upper.as_str()) {
        Some(Modifier::Ctrl) => mods.ctrl = true,
        Some(Modifier::Alt) => mods.alt = true,
        Some(Modifier::Shift) => mods.shift = true,
        Some(Modifier::Super) => mods.mod4 = true,
        None => *key = Some(t),
    }
}

/// The key name after reading, if any, by its contents.
pub open spec fn key_view(k: Option<&str>) -> Option<Seq<char>> {
    match k {
        Some(s) => Some(s@),
        None => None,
    }
}

/// Parses a chord (see `chord_of`); the key name, if any, is left for the
/// keymap to turn into a keysym (see `resolve_chord`).
pub fn parse_keybind(chord: &str) -> (r: Option<Chord>)
    ensures
        match r {
            Some(c) => chord_of(chord@) == Some((c.mods, c.key@)),
            None => chord_of(chord@) is None,
        },
{
    let n = chord.unicode_len();
    let mut mods = Mods { alt: false, ctrl: false, shift: false, mod4: false };
    let mut key: Option<&str> = None;
    let mut start: usize = 0;
    let mut i: usize = 0;
    proof {
        lemma_split_plus_len(chord@);
    }
    while i < n
        invariant
            n == chord@.len(),
            start <= i <= n,
            split_plus(chord@.take(i as int)).len() >= 1,
            split_plus(chord@.take(i as int)).last() == chord@.subrange(start as int, i as int),
            scan_pieces(split_plus(chord@.take(i as int)).drop_last()) == (mods, key_view(key)),
        decreases n - i,
    {
        let c = chord.get_char(i);
        let ghost before = split_plus(chord@.take(i as int));
        proof {
            assert(chord@.take(i + 1).drop_last() =~= chord@.take(i as int));
            assert(chord@.take(i + 1).last() == c);
        }
        if c == '+' {
            let part = chord.substring_char(start, i);
            read_part(part, &mut mods, &mut key);
            proof {
                let after = split_plus(chord@.take(i + 1));
                assert(after == before.push(Seq::<char>::empty()));
                assert(after.drop_last() =~= before);
                assert(before.drop_last().push(before.last()) =~= before);
                assert(chord@.subrange(i + 1, i + 1) =~= Seq::<char>::empty());
            }
            start = i + 1;
        } else {
            proof {
                let after = split_plus(chord@.take(i + 1));
                assert(after.drop_last() =~= before.drop_last());
                assert(chord@.subrange(start as int, i + 1) =~= chord@.subrange(start as int, i as int).push(c));
            }
        }
        i = i + 1;
    }
    let last = chord.substring_char(start, n);
    read_part(last, &mut mods, &mut key);
    proof {
        let all = split_plus(chord@);
        assert(chord@.take(n as int) =~= chord@);
        assert(all.drop_last().push(all.last()) =~= all);
    }
    match key {
        None => None,
        Some(name) => match chord_key(name) {
            None => None,
            Some(k) => Some(Chord { mods, key: k }),
        },
    }
}

/// A keysym, or the keysym of its lower-case name when the keymap has one
/// (`lowered`, `NO_SYMBOL` when it has none).
pub fn keysym_to_lower(keysym: u32, lowered: u32) -> (r: u32)
    ensures
        r == lower_keysym(keysym, lowered),
{
    if lowered == NO_SYMBOL {
        keysym
    } else {
        lowered
    }
}

/// The binding trigger a parsed chord stands for. A key name needs the
/// keymap: `keysym` is its keysym (looked up ignoring case, `NO_SYMBOL` when
/// unknown) and `lowered` the keysym of that keysym's lower-case name.
pub fn resolve_chord(chord: &Chord, keysym: u32, lowered: u32) -> (r: Option<KeyPattern>)
    ensures
        match chord.key@ {
            ChordKeyView::Keycode(c) => r == Some(KeyPattern { mods: chord.mods, key: KeySpec::Keycode(c) }),
            ChordKeyView::Mouse(b) => r == Some(KeyPattern { mods: chord.mods, key: KeySpec::Mouse(b) }),
            ChordKeyView::Name(_) => r == if keysym == NO_SYMBOL {
                None
            } else {
                Some(KeyPattern { mods: chord.mods, key: KeySpec::Keysym(lower_keysym(keysym, lowered)) })
            },
        },
{
    match &chord.key {
        ChordKey::Keycode(c) => Some(KeyPattern { mods: chord.mods, key: KeySpec::Keycode(*c) }),
        ChordKey::Mouse(b) => Some(KeyPattern { mods: chord.mods, key: KeySpec::Mouse(*b) }),
        ChordKey::Name(_) => {
            if keysym == NO_SYMBOL {
                None
            } else {
                Some(KeyPattern { mods: chord.mods, key: KeySpec::Keysym(keysym_to_lower(keysym, lowered)) })
            }
        },
    }
}


/// A chord is only modifiers when every part names one.
pub open spec fn all_modifiers(ps: Seq<Seq<char>>) -> bool {
    forall|i: int| 0 <= i < ps.len() ==> (#[trigger] modifier_of(upper_of(trimmed(ps[i])))) is Some
}

/// Reading only modifiers finds no key.
proof fn lemma_scan_modifiers(ps: Seq<Seq<char>>)
    requires
        all_modifiers(ps),
    ensures
        scan_pieces(ps).1 is None,
    decreases ps.len(),
{
    if ps.len() > 0 {
        assert(all_modifiers(ps.drop_last())) by {
            assert forall|i: int| 0 <= i < ps.drop_last().len() implies (#[trigger] modifier_of(upper_of(trimmed(ps.drop_last()[i])))) is Some by {
                assert(ps.drop_last()[i] == ps[i]);
            }
        }
        lemma_scan_modifiers(ps.drop_last());
        assert(modifier_of(upper_of(trimmed(ps[ps.len() - 1]))) is Some);
    }
}

/// A binding needs a key: a chord whose parts all name modifiers is no chord.
pub proof fn law_chord_needs_key(s: Seq<char>)
    requires
        all_modifiers(split_plus(s)),
    ensures
        chord_of(s) is None,
{
    lemma_scan_modifiers(split_plus(s));
}

/// The last part that names no modifier is the key: a key part written
/// after a chord's parts replaces the key they had.
pub proof fn law_last_key_wins(ps: Seq<Seq<char>>, p: Seq<char>)
    requires
        modifier_of(upper_of(trimmed(p))) is None,
    ensures
        scan_pieces(ps.push(p)) == (scan_pieces(ps).0, Some(trimmed(p))),
{
    assert(ps.push(p).drop_last() =~= ps);
}

/// The modifier a chord piece names, trimmed and upper-cased, if any.
pub open spec fn piece_modifier(p: Seq<char>) -> Option<Modifier> {
    modifier_of(upper_of(trimmed(p)))
}

/// Some piece of `ps` names modifier `md`.
pub open spec fn names_modifier(ps: Seq<Seq<char>>, md: Modifier) -> bool {
    exists|i: int| 0 <= i < ps.len() && #[trigger] piece_modifier(ps[i]) == Some(md)
}

/// The modifiers that the pieces `ps` name, in any order and spelling.
pub open spec fn mods_named(ps: Seq<Seq<char>>) -> Mods {
    Mods {
        alt: names_modifier(ps, Modifier::Alt),
        ctrl: names_modifier(ps, Modifier::Ctrl),
        shift: names_modifier(ps, Modifier::Shift),
        mod4: names_modifier(ps, Modifier::Super),
    }
}

/// A piece names a modifier in `ps` exactly when it does so in all but the
/// last piece, or the last piece names it.
proof fn lemma_names_modifier_last(ps: Seq<Seq<char>>, md: Modifier)
    requires
        ps.len() > 0,
    ensures
        names_modifier(ps, md) == (names_modifier(ps.drop_last(), md) || piece_modifier(ps.last()) == Some(md)),
{
    let d = ps.drop_last();
    if names_modifier(d, md) {
        let i = choose|i: int| 0 <= i < d.len() && #[trigger] piece_modifier(d[i]) == Some(md);
        assert(ps[i] == d[i]);
        assert(piece_modifier(ps[i]) == Some(md));
    }
    if piece_modifier(ps.last()) == Some(md) {
        assert(piece_modifier(ps[ps.len() - 1]) == Some(md));
    }
    if names_modifier(ps, md) && !(piece_modifier(ps.last()) == Some(md)) {
        let i = choose|i: int| 0 <= i < ps.len() && #[trigger] piece_modifier(ps[i]) == Some(md);
        assert(i < ps.len() - 1);
        assert(d[i] == ps[i]);
        assert(piece_modifier(d[i]) == Some(md));
    }
}

/// The modifiers a chord's pieces hold are those its pieces name, whatever
/// their order, spelling or repetition.
pub proof fn lemma_scan_mods(ps: Seq<Seq<char>>)
    ensures
        scan_pieces(ps).0 == mods_named(ps),
    decreases ps.len(),
{
    if ps.len() == 0 {
        assert(!names_modifier(ps, Modifier::Alt));
        assert(!names_modifier(ps, Modifier::Ctrl));
        assert(!names_modifier(ps, Modifier::Shift));
        assert(!names_modifier(ps, Modifier::Super));
    } else {
        lemma_scan_mods(ps.drop_last());
        lemma_names_modifier_last(ps, Modifier::Alt);
        lemma_names_modifier_last(ps, Modifier::Ctrl);
        lemma_names_modifier_last(ps, Modifier::Shift);
        lemma_names_modifier_last(ps, Modifier::Super);
    }
}

/// A chord whose pieces all name modifiers but the piece at `k` has that
/// piece, trimmed, as its key, wherever it stands.
pub proof fn law_single_key_piece(ps: Seq<Seq<char>>, k: int)
    requires
        0 <= k < ps.len(),
        piece_modifier(ps[k]) is None,
        forall|i: int| 0 <= i < ps.len() && i != k ==> (#[trigger] piece_modifier(ps[i])) is Some,
    ensures
        scan_pieces(ps).1 == Some(trimmed(ps[k])),
    decreases ps.len(),
{
    if k < ps.len() - 1 {
        let d = ps.drop_last();
        assert forall|i: int| 0 <= i < d.len() && i != k implies (#[trigger] piece_modifier(d[i])) is Some by {
            assert(d[i] == ps[i]);
        }
        assert(d[k] == ps[k]);
        law_single_key_piece(d, k);
        assert(piece_modifier(ps[ps.len() - 1]) is Some);
    }
}

/// A chord does not depend on how its modifiers are written: two chords
/// whose pieces name the same modifiers, in any order, spelling, case,
/// spacing or repetition, and that have the same key, are the same chord.
pub proof fn law_chord_respelled(a: Seq<char>, b: Seq<char>)
    requires
        forall|md: Modifier| #[trigger] names_modifier(split_plus(a), md) == names_modifier(split_plus(b), md),
        scan_pieces(split_plus(a)).1 == scan_pieces(split_plus(b)).1,
    ensures
        chord_of(a) == chord_of(b),
{
    lemma_scan_mods(split_plus(a));
    lemma_scan_mods(split_plus(b));
    assert(names_modifier(split_plus(a), Modifier::Alt) == names_modifier(split_plus(b), Modifier::Alt));
    assert(names_modifier(split_plus(a), Modifier::Ctrl) == names_modifier(split_plus(b), Modifier::Ctrl));
    assert(names_modifier(split_plus(a), Modifier::Shift) == names_modifier(split_plus(b), Modifier::Shift));
    assert(names_modifier(split_plus(a), Modifier::Super) == names_modifier(split_plus(b), Modifier::Super));
}

/// `p` and `q` are ASCII and the same but for the case of letters.
pub open spec fn same_ignoring_ascii_case(p: Seq<char>, q: Seq<char>) -> bool {
    &&& is_ascii_chars(p)
    &&& is_ascii_chars(q)
    &&& ascii_uppercase(p) == ascii_uppercase(q)
}

/// Reading pieces that name the same modifiers, and that have the same
/// trimmed text where they name none, gives the same modifiers and key.
proof fn lemma_scan_alike(pa: Seq<Seq<char>>, pb: Seq<Seq<char>>)
    requires
        pa.len() == pb.len(),
        forall|i: int| 0 <= i < pa.len() ==> #[trigger] piece_modifier(pa[i]) == piece_modifier(pb[i]),
        forall|i: int| 0 <= i < pa.len() && (#[trigger] piece_modifier(pa[i])) is None ==> trimmed(pa[i]) == trimmed(pb[i]),
    ensures
        scan_pieces(pa) == scan_pieces(pb),
    decreases pa.len(),
{
    if pa.len() > 0 {
        let da = pa.drop_last();
        let db = pb.drop_last();
        assert forall|i: int| 0 <= i < da.len() implies #[trigger] piece_modifier(da[i]) == piece_modifier(db[i]) by {
            assert(da[i] == pa[i] && db[i] == pb[i]);
        }
        assert forall|i: int| 0 <= i < da.len() && (#[trigger] piece_modifier(da[i])) is None implies trimmed(da[i]) == trimmed(db[i]) by {
            assert(da[i] == pa[i] && db[i] == pb[i]);
        }
        lemma_scan_alike(da, db);
        assert(piece_modifier(pa[pa.len() - 1]) == piece_modifier(pb[pb.len() - 1]));
    }
}

/// A chord does not depend on the letter case of its modifiers: a chord
/// whose pieces are those of another, but with some modifier pieces written
/// in other ASCII letter case, is the same chord.
pub proof fn law_chord_recased(a: Seq<char>, b: Seq<char>)
    requires
        split_plus(a).len() == split_plus(b).len(),
        forall|i: int| 0 <= i < split_plus(a).len() ==> #[trigger] split_plus(a)[i] == split_plus(b)[i] || (
            piece_modifier(split_plus(a)[i]) is Some && same_ignoring_ascii_case(
                trimmed(split_plus(a)[i]),
                trimmed(split_plus(b)[i]),
            )),
    ensures
        chord_of(a) == chord_of(b),
{
    let pa = split_plus(a);
    let pb = split_plus(b);
    assert forall|i: int| 0 <= i < pa.len() implies #[trigger] piece_modifier(pa[i]) == piece_modifier(pb[i]) by {
        assert(pa[i] == pb[i] || (piece_modifier(pa[i]) is Some && same_ignoring_ascii_case(trimmed(pa[i]), trimmed(pb[i]))));
        if pa[i] != pb[i] {
            assert(upper_of(trimmed(pa[i])) == upper_of(trimmed(pb[i])));
        }
    }
    assert forall|i: int| 0 <= i < pa.len() && (#[trigger] piece_modifier(pa[i])) is None implies trimmed(pa[i]) == trimmed(pb[i]) by {
        assert(pa[i] == pb[i] || (piece_modifier(pa[i]) is Some && same_ignoring_ascii_case(trimmed(pa[i]), trimmed(pb[i]))));
    }
    lemma_scan_alike(pa, pb);
}

/// The modifier names of different modifiers are different strings.
proof fn lemma_modifier_names_differ()
    ensures
        "SUPER"@ != "CTRL"@,
        "SUPER"@ != "CONTROL"@,
        "SUPER"@ != "ALT"@,
        "SUPER"@ != "MOD1"@,
        "SUPER"@ != "SHIFT"@,
        "LOGO"@ != "CTRL"@,
        "LOGO"@ != "CONTROL"@,
        "LOGO"@ != "ALT"@,
        "LOGO"@ != "MOD1"@,
        "LOGO"@ != "SHIFT"@,
        "WIN"@ != "CTRL"@,
        "WIN"@ != "CONTROL"@,
        "WIN"@ != "ALT"@,
        "WIN"@ != "MOD1"@,
        "WIN"@ != "SHIFT"@,
        "MOD4"@ != "CTRL"@,
        "MOD4"@ != "CONTROL"@,
        "MOD4"@ != "ALT"@,
        "MOD4"@ != "MOD1"@,
        "MOD4"@ != "SHIFT"@,
        "CTRL"@ != "ALT"@,
        "CTRL"@ != "MOD1"@,
        "CTRL"@ != "SHIFT"@,
        "CONTROL"@ != "ALT"@,
        "CONTROL"@ != "MOD1"@,
        "CONTROL"@ != "SHIFT"@,
        "ALT"@ != "SHIFT"@,
        "MOD1"@ != "SHIFT"@,
{
    reveal_strlit("SUPER");
    reveal_strlit("LOGO");
    reveal_strlit("WIN");
    reveal_strlit("MOD4");
    reveal_strlit("CTRL");
    reveal_strlit("CONTROL");
    reveal_strlit("ALT");
    reveal_strlit("MOD1");
    reveal_strlit("SHIFT");
    assert("SUPER"@[0] != "CTRL"@[0]);
    assert("SUPER"@[0] != "CONTROL"@[0]);
    assert("SUPER"@[0] != "ALT"@[0]);
    assert("SUPER"@[0] != "MOD1"@[0]);
    assert("SUPER"@[1] != "SHIFT"@[1]);
    assert("LOGO"@[0] != "CTRL"@[0]);
    assert("LOGO"@[0] != "CONTROL"@[0]);
    assert("LOGO"@[0] != "ALT"@[0]);
    assert("LOGO"@[0] != "MOD1"@[0]);
    assert("LOGO"@[0] != "SHIFT"@[0]);
    assert("WIN"@[0] != "CTRL"@[0]);
    assert("WIN"@[0] != "CONTROL"@[0]);
    assert("WIN"@[0] != "ALT"@[0]);
    assert("WIN"@[0] != "MOD1"@[0]);
    assert("WIN"@[0] != "SHIFT"@[0]);
    assert("MOD4"@[0] != "CTRL"@[0]);
    assert("MOD4"@[0] != "CONTROL"@[0]);
    assert("MOD4"@[0] != "ALT"@[0]);
    assert("MOD4"@[3] != "MOD1"@[3]);
    assert("MOD4"@[0] != "SHIFT"@[0]);
    assert("CTRL"@[0] != "ALT"@[0]);
    assert("CTRL"@[0] != "MOD1"@[0]);
    assert("CTRL"@[0] != "SHIFT"@[0]);
    assert("CONTROL"@[0] != "ALT"@[0]);
    assert("CONTROL"@[0] != "MOD1"@[0]);
    assert("CONTROL"@[0] != "SHIFT"@[0]);
    assert("ALT"@[0] != "SHIFT"@[0]);
    assert("MOD1"@[0] != "SHIFT"@[0]);
}

/// Whether some part of a chord, trimmed and upper-cased, is one of the
/// names `n1` to `n4`.
pub open spec fn some_part_named(ps: Seq<Seq<char>>, n1: Seq<char>, n2: Seq<char>, n3: Seq<char>, n4: Seq<char>) -> bool {
    exists|i: int| 0 <= i < ps.len() && {
        let u = #[trigger] upper_of(trimmed(ps[i]));
        u == n1 || u == n2 || u == n3 || u == n4
    }
}

/// The modifiers a chord holds are those its parts name: Super when some
/// part, trimmed and upper-cased, is `SUPER`, `LOGO`, `WIN` or `MOD4`;
/// Ctrl for `CTRL` or `CONTROL`; Alt for `ALT` or `MOD1`; Shift for `SHIFT`;
/// and no other modifier.
pub proof fn law_modifier_names(s: Seq<char>)
    ensures
        ({
            let ps = split_plus(s);
            let m = scan_pieces(ps).0;
            &&& m.mod4 <==> some_part_named(ps, "SUPER"@, "LOGO"@, "WIN"@, "MOD4"@)
            &&& m.ctrl <==> some_part_named(ps, "CTRL"@, "CONTROL"@, "CTRL"@, "CONTROL"@)
            &&& m.alt <==> some_part_named(ps, "ALT"@, "MOD1"@, "ALT"@, "MOD1"@)
            &&& m.shift <==> some_part_named(ps, "SHIFT"@, "SHIFT"@, "SHIFT"@, "SHIFT"@)
        }),
{
    reveal_strlit("SUPER");
    reveal_strlit("LOGO");
    reveal_strlit("WIN");
    reveal_strlit("MOD4");
    reveal_strlit("CTRL");
    reveal_strlit("CONTROL");
    reveal_strlit("ALT");
    reveal_strlit("MOD1");
    reveal_strlit("SHIFT");
    let ps = split_plus(s);
    lemma_scan_mods(ps);
    assert forall|u: Seq<char>| #![trigger modifier_of(u)]
        (modifier_of(u) == Some(Modifier::Super) <==> (u == "SUPER"@ || u == "LOGO"@ || u == "WIN"@ || u == "MOD4"@))
        && (modifier_of(u) == Some(Modifier::Ctrl) <==> (u == "CTRL"@ || u == "CONTROL"@))
        && (modifier_of(u) == Some(Modifier::Alt) <==> (u == "ALT"@ || u == "MOD1"@))
        && (modifier_of(u) == Some(Modifier::Shift) <==> u == "SHIFT"@) by {
        lemma_modifier_names_differ();
    }
    let m = scan_pieces(ps).0;
    if m.mod4 {
        let i = choose|i: int| 0 <= i < ps.len() && #[trigger] piece_modifier(ps[i]) == Some(Modifier::Super);
        assert(modifier_of(upper_of(trimmed(ps[i]))) == Some(Modifier::Super));
    }
    if some_part_named(ps, "SUPER"@, "LOGO"@, "WIN"@, "MOD4"@) {
        let i = choose|i: int| 0 <= i < ps.len() && {
            let u = #[trigger] upper_of(trimmed(ps[i]));
            u == "SUPER"@ || u == "LOGO"@ || u == "WIN"@ || u == "MOD4"@
        };
        assert(modifier_of(upper_of(trimmed(ps[i]))) == Some(Modifier::Super));
        assert(piece_modifier(ps[i]) == Some(Modifier::Super));
    }
    if m.ctrl {
        let i = choose|i: int| 0 <= i < ps.len() && #[trigger] piece_modifier(ps[i]) == Some(Modifier::Ctrl);
        assert(modifier_of(upper_of(trimmed(ps[i]))) == Some(Modifier::Ctrl));
    }
    if some_part_named(ps, "CTRL"@, "CONTROL"@, "CTRL"@, "CONTROL"@) {
        let i = choose|i: int| 0 <= i < ps.len() && {
            let u = #[trigger] upper_of(trimmed(ps[i]));
            u == "CTRL"@ || u == "CONTROL"@ || u == "CTRL"@ || u == "CONTROL"@
        };
        assert(modifier_of(upper_of(trimmed(ps[i]))) == Some(Modifier::Ctrl));
        assert(piece_modifier(ps[i]) == Some(Modifier::Ctrl));
    }
    if m.alt {
        let i = choose|i: int| 0 <= i < ps.len() && #[trigger] piece_modifier(ps[i]) == Some(Modifier::Alt);
        assert(modifier_of(upper_of(trimmed(ps[i]))) == Some(Modifier::Alt));
    }
    if some_part_named(ps, "ALT"@, "MOD1"@, "ALT"@, "MOD1"@) {
        let i = choose|i: int| 0 <= i < ps.len() && {
            let u = #[trigger] upper_of(trimmed(ps[i]));
            u == "ALT"@ || u == "MOD1"@ || u == "ALT"@ || u == "MOD1"@
        };
        assert(modifier_of(upper_of(trimmed(ps[i]))) == Some(Modifier::Alt));
        assert(piece_modifier(ps[i]) == Some(Modifier::Alt));
    }
    if m.shift {
        let i = choose|i: int| 0 <= i < ps.len() && #[trigger] piece_modifier(ps[i]) == Some(Modifier::Shift);
        assert(modifier_of(upper_of(trimmed(ps[i]))) == Some(Modifier::Shift));
    }
    if some_part_named(ps, "SHIFT"@, "SHIFT"@, "SHIFT"@, "SHIFT"@) {
        let i = choose|i: int| 0 <= i < ps.len() && {
            let u = #[trigger] upper_of(trimmed(ps[i]));
            u == "SHIFT"@ || u == "SHIFT"@ || u == "SHIFT"@ || u == "SHIFT"@
        };
        assert(modifier_of(upper_of(trimmed(ps[i]))) == Some(Modifier::Shift));
        assert(piece_modifier(ps[i]) == Some(Modifier::Shift));
    }
}

/// A key written `code:` then a number is that keycode and one written
/// `mouse:` then a number that mouse button, the prefix in either case;
/// with anything but a `u32` after the prefix there is no key.
pub proof fn law_key_prefixes(d: Seq<char>)
    ensures
        key_of("code:"@ + d) == (match u32_of(d) {
            Some(c) => Some(ChordKeyView::Keycode(c)),
            None => None,
        }),
        key_of("CODE:"@ + d) == key_of("code:"@ + d),
        key_of("mouse:"@ + d) == (match u32_of(d) {
            Some(b) => Some(ChordKeyView::Mouse(b)),
            None => None,
        }),
        key_of("MOUSE:"@ + d) == key_of("mouse:"@ + d),
{
    reveal_strlit("code:");
    reveal_strlit("CODE:");
    reveal_strlit("mouse:");
    reveal_strlit("MOUSE:");
    assert(("code:"@ + d).skip(5) =~= d);
    assert(("CODE:"@ + d).skip(5) =~= d);
    assert(("mouse:"@ + d).skip(6) =~= d);
    assert(("MOUSE:"@ + d).skip(6) =~= d);
    assert(starts_with_ignoring_case("code:"@ + d, "code:"@));
    assert(starts_with_ignoring_case("CODE:"@ + d, "code:"@));
    assert(!starts_with_ignoring_case("mouse:"@ + d, "code:"@)) by {
        assert(ascii_lower_code(("mouse:"@ + d)[0]) != "code:"@[0] as int);
    }
    assert(!starts_with_ignoring_case("MOUSE:"@ + d, "code:"@)) by {
        assert(ascii_lower_code(("MOUSE:"@ + d)[0]) != "code:"@[0] as int);
    }
    assert(starts_with_ignoring_case("mouse:"@ + d, "mouse:"@));
    assert(starts_with_ignoring_case("MOUSE:"@ + d, "mouse:"@));
}

} // verus!
