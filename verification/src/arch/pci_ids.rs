//! The PCI ID database (the text of `pci.ids`): a vendor line starts with the
//! vendor id in lower-case hex, its device lines follow indented by one tab;
//! the name is what follows the last double space, trimmed.

use vstd::prelude::*;

verus! {

// ---------------------------------------------------------------------------
// Text helpers, as plain functions on bytes.

/// The lower-case hex digit for `d < 16`.
pub open spec fn hex_digit(d: nat) -> u8 {
    if d < 10 {
        (0x30 + d) as u8
    } else {
        (0x61 + d - 10) as u8
    }
}

/// `v` in lower-case hex without leading zeros ("0" for zero).
pub open spec fn hex_text(v: nat) -> Seq<u8>
    decreases v,
{
    if v < 16 {
        seq![hex_digit(v)]
    } else {
        hex_text(v / 16).push(hex_digit(v % 16))
    }
}

/// `p` is a prefix of `s`.
pub open spec fn has_prefix(s: Seq<u8>, p: Seq<u8>) -> bool {
    p.len() <= s.len() && s.subrange(0, p.len() as int) == p
}

/// The three bytes of a white-space character above U+07FF in UTF-8.
pub open spec fn is_ws3(a: u8, b: u8, c: u8) -> bool {
    ||| (a == 0xE1 && b == 0x9A && c == 0x80)
    ||| (a == 0xE2 && b == 0x80 && ((0x80 <= c <= 0x8A) || c == 0xA8 || c == 0xA9 || c == 0xAF))
    ||| (a == 0xE2 && b == 0x81 && c == 0x9F)
    ||| (a == 0xE3 && b == 0x80 && c == 0x80)
}

/// The length of the white-space character (Unicode White_Space, in UTF-8)
/// that `s` starts with, or 0.
pub open spec fn ws_prefix(s: Seq<u8>) -> int {
    if s.len() >= 1 && (s[0] == 0x20 || (0x09 <= s[0] <= 0x0D)) {
        1
    } else if s.len() >= 2 && s[0] == 0xC2 && (s[1] == 0x85 || s[1] == 0xA0) {
        2
    } else if s.len() >= 3 && is_ws3(s[0], s[1], s[2]) {
        3
    } else {
        0
    }
}

/// The length of the white-space character that `s` ends with, or 0.
pub open spec fn ws_suffix(s: Seq<u8>) -> int {
    let n = s.len() as int;
    if n >= 1 && (s[n - 1] == 0x20 || (0x09 <= s[n - 1] <= 0x0D)) {
        1
    } else if n >= 2 && s[n - 2] == 0xC2 && (s[n - 1] == 0x85 || s[n - 1] == 0xA0) {
        2
    } else if n >= 3 && is_ws3(s[n - 3], s[n - 2], s[n - 1]) {
        3
    } else {
        0
    }
}

/// `s` without its leading white space.
pub open spec fn trim_start(s: Seq<u8>) -> Seq<u8>
    decreases s.len(),
{
    let k = ws_prefix(s);
    if k > 0 {
        trim_start(s.skip(k))
    } else {
        s
    }
}

/// `s` without its trailing white space.
pub open spec fn trim_end(s: Seq<u8>) -> Seq<u8>
    decreases s.len(),
{
    let k = ws_suffix(s);
    if k > 0 {
        trim_end(s.take(s.len() - k))
    } else {
        s
    }
}

/// `s` without white space at either end.
pub open spec fn trim(s: Seq<u8>) -> Seq<u8> {
    trim_end(trim_start(s))
}

/// Where the last piece of `s` split at "  " starts, scanning from `i` with
/// the current piece starting at `start` (matches do not overlap).
pub open spec fn last_piece_from(s: Seq<u8>, i: int, start: int) -> int
    decreases s.len() - i,
{
    if i < 0 || i + 1 >= s.len() {
        start
    } else if s[i] == 0x20 && s[i + 1] == 0x20 {
        last_piece_from(s, i + 2, i + 2)
    } else {
        last_piece_from(s, i + 1, start)
    }
}

/// The name on a database line: its last piece after "  ", trimmed.
pub open spec fn entry_name(line: Seq<u8>) -> Seq<u8> {
    trim(line.skip(last_piece_from(line, 0, 0)))
}

/// The number of tabs `s` starts with.
pub open spec fn leading_tabs(s: Seq<u8>) -> nat
    decreases s.len(),
{
    if s.len() > 0 && s[0] == 0x09 {
        1 + leading_tabs(s.drop_first())
    } else {
        0
    }
}

// ---------------------------------------------------------------------------
// Lines and the search.

/// Where the line starting at `i` ends: its '\n', or the end of the text.
pub open spec fn line_end(t: Seq<u8>, i: int) -> int
    decreases t.len() - i,
{
    if i < 0 || i >= t.len() {
        t.len() as int
    } else if t[i] == 0x0A {
        i
    } else {
        line_end(t, i + 1)
    }
}

/// The line starting at `i`, without its "\n" or "\r\n".
pub open spec fn line_at(t: Seq<u8>, i: int) -> Seq<u8> {
    let j = line_end(t, i);
    if j < t.len() && j > i && t[j - 1] == 0x0D {
        t.subrange(i, j - 1)
    } else {
        t.subrange(i, j)
    }
}

/// What a line gives the search: nothing, a vendor name (`false`) or a device
/// name (`true`). Empty lines and comments give nothing; a line without tabs
/// that starts with the vendor id names the vendor, until one has; after it, a
/// line with one tab that starts with the device id names the device.
pub open spec fn id_line(raw: Seq<u8>, vs: Seq<u8>, ds: Seq<u8>, found: bool) -> Option<(bool, Seq<u8>)> {
    let tabs = leading_tabs(raw);
    let line = raw.skip(tabs as int);
    if raw.len() == 0 || raw[0] == 0x23 || line.len() == 0 || line[0] == 0x23 {
        None
    } else if !found && tabs == 0 && has_prefix(line, vs) {
        Some((false, entry_name(line)))
    } else if found && tabs == 1 && has_prefix(line, ds) {
        Some((true, entry_name(line)))
    } else {
        None
    }
}

/// The vendor and device names found from the line at `i` on, the vendor name
/// so far being `vendor` (`found` once there is one); the device name is empty
/// where none is found.
pub open spec fn scan_ids(t: Seq<u8>, i: int, vs: Seq<u8>, ds: Seq<u8>, found: bool, vendor: Seq<u8>) -> (
    Seq<u8>,
    Seq<u8>,
)
    decreases t.len() - i,
{
    if i < 0 || i >= t.len() {
        (vendor, Seq::empty())
    } else {
        let j = line_end(t, i);
        let next = if j < t.len() {
            j + 1
        } else {
            t.len() as int
        };
        if next <= i {
            (vendor, Seq::empty())
        } else {
            match id_line(line_at(t, i), vs, ds, found) {
                None => scan_ids(t, next, vs, ds, found, vendor),
                Some((false, n)) => scan_ids(t, next, vs, ds, true, n),
                Some((true, n)) => (vendor, n),
            }
        }
    }
}

/// The vendor and device names of `vendor:device` in the database text `t`,
/// where both are found and not empty.
pub open spec fn lookup_spec(t: Seq<u8>, vendor: u16, device: u16) -> Option<(Seq<u8>, Seq<u8>)> {
    let (v, d) = scan_ids(t, 0, hex_text(vendor as nat), hex_text(device as nat), false, Seq::empty());
    if v.len() == 0 || d.len() == 0 {
        None
    } else {
        Some((v, d))
    }
}

pub proof fn lemma_line_end(t: Seq<u8>, i: int)
    requires
        0 <= i <= t.len(),
    ensures
        i <= line_end(t, i) <= t.len(),
        forall|k: int| i <= k < line_end(t, i) ==> t[k] != 0x0A,
        line_end(t, i) < t.len() ==> t[line_end(t, i)] == 0x0A,
    decreases t.len() - i,
{
    if i < t.len() && t[i] != 0x0A {
        lemma_line_end(t, i + 1);
    }
}

// ---------------------------------------------------------------------------
// The executable side.

/// `v` in lower-case hex without leading zeros.
pub fn hex_lower(v: u64) -> (r: Vec<u8>)
    ensures
        r@ == hex_text(v as nat),
    decreases v,
{
    let d = v % 16;
    let c: u8 = if d < 10 {
        (0x30 + d) as u8
    } else {
        (0x61 + d - 10) as u8
    };
    if v < 16 {
        let mut r: Vec<u8> = Vec::new();
        r.push(c);
        assert(r@ =~= seq![hex_digit(v as nat)]);
        r
    } else {
        let mut r = hex_lower(v / 16);
        r.push(c);
        r
    }
}

fn has_prefix_at(s: &[u8], a: usize, b: usize, p: &[u8]) -> (r: bool)
    requires
        a <= b <= s@.len(),
    ensures
        r == has_prefix(s@.subrange(a as int, b as int), p@),
{
    let ghost t = s@.subrange(a as int, b as int);
    if p.len() > b - a {
        return false;
    }
    let mut k: usize = 0;
    while k < p.len()
        invariant
            k <= p@.len(),
            a + p@.len() <= b <= s@.len(),
            t == s@.subrange(a as int, b as int),
            forall|m: int| 0 <= m < k ==> s@[a + m] == p@[m],
        decreases p@.len() - k,
    {
        if s[a + k] != p[k] {
            assert(t.subrange(0, p@.len() as int)[k as int] != p@[k as int]);
            return false;
        }
        k = k + 1;
    }
    assert(t.subrange(0, p@.len() as int) =~= p@);
    true
}

fn ws_len_at(s: &[u8], a: usize, b: usize) -> (r: usize)
    requires
        a <= b <= s@.len(),
    ensures
        r == ws_prefix(s@.subrange(a as int, b as int)),
{
    let n = b - a;
    let ghost t = s@.subrange(a as int, b as int);
    if n >= 1 && (s[a] == 0x20 || (0x09 <= s[a] && s[a] <= 0x0D)) {
        return 1;
    }
    if n >= 2 && s[a] == 0xC2 && (s[a + 1] == 0x85 || s[a + 1] == 0xA0) {
        return 2;
    }
    if n >= 3 {
        let (x, y, z) = (s[a], s[a + 1], s[a + 2]);
        assert(t[0] == x && t[1] == y && t[2] == z);
        if (x == 0xE1 && y == 0x9A && z == 0x80) || (x == 0xE2 && y == 0x80 && ((0x80 <= z && z <= 0x8A) || z == 0xA8
            || z == 0xA9 || z == 0xAF)) || (x == 0xE2 && y == 0x81 && z == 0x9F) || (x == 0xE3 && y == 0x80 && z == 0x80) {
            return 3;
        }
    }
    0
}

fn ws_len_before(s: &[u8], a: usize, b: usize) -> (r: usize)
    requires
        a <= b <= s@.len(),
    ensures
        r == ws_suffix(s@.subrange(a as int, b as int)),
{
    let n = b - a;
    let ghost t = s@.subrange(a as int, b as int);
    if n >= 1 && (s[b - 1] == 0x20 || (0x09 <= s[b - 1] && s[b - 1] <= 0x0D)) {
        return 1;
    }
    if n >= 2 && s[b - 2] == 0xC2 && (s[b - 1] == 0x85 || s[b - 1] == 0xA0) {
        return 2;
    }
    if n >= 3 {
        let (x, y, z) = (s[b - 3], s[b - 2], s[b - 1]);
        assert(t[n - 3] == x && t[n - 2] == y && t[n - 1] == z);
        if (x == 0xE1 && y == 0x9A && z == 0x80) || (x == 0xE2 && y == 0x80 && ((0x80 <= z && z <= 0x8A) || z == 0xA8
            || z == 0xA9 || z == 0xAF)) || (x == 0xE2 && y == 0x81 && z == 0x9F) || (x == 0xE3 && y == 0x80 && z == 0x80) {
            return 3;
        }
    }
    0
}

/// The bytes `s[a..b]`.
fn copy_range(s: &[u8], a: usize, b: usize) -> (r: Vec<u8>)
    requires
        a <= b <= s@.len(),
    ensures
        r@ == s@.subrange(a as int, b as int),
{
    let mut v: Vec<u8> = Vec::new();
    let mut k: usize = a;
    while k < b
        invariant
            a <= k <= b,
            b <= s@.len(),
            v@ == s@.subrange(a as int, k as int),
        decreases b - k,
    {
        v.push(s[k]);
        k = k + 1;
        assert(v@ =~= s@.subrange(a as int, k as int));
    }
    v
}

/// `s[a..b]` without white space at either end.
fn trim_range(s: &[u8], a: usize, b: usize) -> (r: Vec<u8>)
    requires
        a <= b <= s@.len(),
    ensures
        r@ == trim(s@.subrange(a as int, b as int)),
{
    let ghost whole = s@.subrange(a as int, b as int);
    let mut x: usize = a;
    loop
        invariant
            a <= x <= b,
            b <= s@.len(),
            trim_start(whole) == trim_start(s@.subrange(x as int, b as int)),
        ensures
            a <= x <= b,
            trim_start(whole) == s@.subrange(x as int, b as int),
        decreases b - x,
    {
        let k = ws_len_at(s, x, b);
        if k == 0 {
            break;
        }
        assert(s@.subrange(x as int, b as int).skip(k as int) =~= s@.subrange((x + k) as int, b as int));
        x = x + k;
    }
    let mut y: usize = b;
    loop
        invariant
            x <= y <= b,
            b <= s@.len(),
            trim_end(s@.subrange(x as int, b as int)) == trim_end(s@.subrange(x as int, y as int)),
        ensures
            x <= y <= b,
            trim_end(s@.subrange(x as int, b as int)) == s@.subrange(x as int, y as int),
        decreases y - x,
    {
        let k = ws_len_before(s, x, y);
        if k == 0 {
            break;
        }
        assert(s@.subrange(x as int, y as int).take(y - x - k) =~= s@.subrange(x as int, (y - k) as int));
        y = y - k;
    }
    copy_range(s, x, y)
}

/// Where the last piece of `s[a..b]` split at "  " starts (an index of `s`).
fn last_piece_start(s: &[u8], a: usize, b: usize) -> (r: usize)
    requires
        a <= b <= s@.len(),
    ensures
        a <= r <= b,
        r - a == last_piece_from(s@.subrange(a as int, b as int), 0, 0),
{
    let ghost t = s@.subrange(a as int, b as int);
    let mut i: usize = a;
    let mut start: usize = a;
    while b - i > 1
        invariant
            a <= start <= i <= b,
            b <= s@.len(),
            t == s@.subrange(a as int, b as int),
            last_piece_from(t, 0, 0) == last_piece_from(t, i - a, start - a),
        decreases b - i,
    {
        if s[i] == 0x20 && s[i + 1] == 0x20 {
            i = i + 2;
            start = i;
        } else {
            i = i + 1;
        }
    }
    start
}

fn tabs_at(s: &[u8], a: usize, b: usize) -> (r: usize)
    requires
        a <= b <= s@.len(),
    ensures
        a + r <= b,
        r == leading_tabs(s@.subrange(a as int, b as int)),
{
    let mut k: usize = a;
    while k < b && s[k] == 0x09
        invariant
            a <= k <= b,
            b <= s@.len(),
            leading_tabs(s@.subrange(a as int, b as int)) == (k - a) + leading_tabs(s@.subrange(k as int, b as int)),
        decreases b - k,
    {
        assert(s@.subrange(k as int, b as int).drop_first() =~= s@.subrange(k + 1, b as int));
        k = k + 1;
    }
    k - a
}

/// What the line `s[a..b]` gives the search (see `id_line`).
fn classify_line(s: &[u8], a: usize, b: usize, vs: &[u8], ds: &[u8], found: bool) -> (r: Option<(bool, Vec<u8>)>)
    requires
        a <= b <= s@.len(),
    ensures
        match id_line(s@.subrange(a as int, b as int), vs@, ds@, found) {
            None => r is None,
            Some((is_dev, n)) => r is Some && r->Some_0.0 == is_dev && r->Some_0.1@ == n,
        },
{
    let ghost raw = s@.subrange(a as int, b as int);
    if a == b || s[a] == 0x23 {
        return None;
    }
    let tabs = tabs_at(s, a, b);
    let c = a + tabs;
    assert(raw.skip(tabs as int) =~= s@.subrange(c as int, b as int));
    if c == b || s[c] == 0x23 {
        return None;
    }
    let ghost line = s@.subrange(c as int, b as int);
    let is_vendor = !found && tabs == 0 && has_prefix_at(s, c, b, vs);
    if is_vendor || (found && tabs == 1 && has_prefix_at(s, c, b, ds)) {
        let p = last_piece_start(s, c, b);
        assert(line.skip(p - c) =~= s@.subrange(p as int, b as int));
        let name = trim_range(s, p, b);
        return Some((!is_vendor, name));
    }
    None
}

/// Where the line starting at `i` ends (see `line_end`).
fn find_line_end(s: &[u8], i: usize) -> (r: usize)
    requires
        i <= s@.len(),
    ensures
        r == line_end(s@, i as int),
{
    let mut j: usize = i;
    while j < s.len() && s[j] != 0x0A
        invariant
            i <= j <= s@.len(),
            line_end(s@, i as int) == line_end(s@, j as int),
        decreases s@.len() - j,
    {
        j = j + 1;
    }
    j
}

impl crate::arch::pci::PCI {
    /// The vendor and device names of `vendor:device` in the ID database text
    /// `ids` (see `lookup_spec`).
    pub fn lookup_device(ids: &[u8], vendor: u16, device: u16) -> (r: Option<(Vec<u8>, Vec<u8>)>)
        ensures
            match lookup_spec(ids@, vendor, device) {
                None => r is None,
                Some((v, d)) => r is Some && r->Some_0.0@ == v && r->Some_0.1@ == d,
            },
    {
        let vs = hex_lower(vendor as u64);
        let ds = hex_lower(device as u64);
        let ghost full = scan_ids(ids@, 0, vs@, ds@, false, Seq::empty());
        let mut vname: Vec<u8> = Vec::new();
        let mut dname: Vec<u8> = Vec::new();
        let mut found = false;
        let mut i: usize = 0;
        while i < ids.len()
            invariant_except_break
                scan_ids(ids@, i as int, vs@, ds@, found, vname@) == full,
                dname@.len() == 0,
            invariant
                i <= ids@.len(),
            ensures
                (vname@, dname@) == full,
            decreases ids@.len() - i,
        {
            let j = find_line_end(ids, i);
            proof {
                lemma_line_end(ids@, i as int);
            }

            let k = if j < ids.len() && j > i && ids[j - 1] == 0x0D {
                j - 1
            } else {
                j
            };
            assert(line_at(ids@, i as int) == ids@.subrange(i as int, k as int));
            match classify_line(ids, i, k, vs.as_slice(), ds.as_slice(), found) {
                None => {},
                Some((false, n)) => {
                    vname = n;
                    found = true;
                },
                Some((true, n)) => {
                    dname = n;
                    break;
                },
            }
            i = if j < ids.len() {
                j + 1
            } else {
                ids.len()
            };

        }
        if vname.len() == 0 || dname.len() == 0 {
            return None;
        }
        Some((vname, dname))
    }
}

} // verus!
