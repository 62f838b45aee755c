//! The colour configuration: six named colours resolved once at startup
//! from a plain-text file, one hexadecimal value per line with an optional
//! `0x` prefix, blank lines skipped, and a built-in default standing in for
//! every missing or unparseable entry.  The file's bytes come in; the theme
//! comes out.

use vstd::prelude::*;

verus! {

/// The six colours every drawing call receives.
#[derive(Clone, Copy, PartialEq, Eq, Structural, Debug)]
pub struct Theme {
    /// Light face colour of raised widgets.
    pub highbackground: u32,
    /// Dark face colour of lowered widgets.
    pub lowbackground: u32,
    /// Highlight edge colour.
    pub highlight: u32,
    /// Shadow edge colour.
    pub lowlight: u32,
    /// Desktop background colour.
    pub wallpaper: u32,
    /// Title-bar accent colour.
    pub titlebar: u32,
}

/// The built-in defaults, one per slot of the colour file.
pub open spec fn default_colour(i: int) -> u32 {
    if i == 0 {
        0xBBBBBB
    } else if i == 1 {
        0x888888
    } else if i == 2 {
        0xFFFFFF
    } else if i == 3 {
        0x000000
    } else if i == 4 {
        0x008080
    } else {
        0x0000A8
    }
}

/// Horizontal whitespace (and the carriage return) trimmed off each line.
pub open spec fn is_space(b: u8) -> bool {
    b == 32 || b == 9 || b == 13 || b == 11 || b == 12
}

/// The line without its leading whitespace.
pub open spec fn trim_front(s: Seq<u8>) -> Seq<u8>
    decreases s.len(),
{
    if s.len() > 0 && is_space(s[0]) {
        trim_front(s.drop_first())
    } else {
        s
    }
}

/// The line without its trailing whitespace.
pub open spec fn trim_back(s: Seq<u8>) -> Seq<u8>
    decreases s.len(),
{
    if s.len() > 0 && is_space(s.last()) {
        trim_back(s.drop_last())
    } else {
        s
    }
}

/// The line without whitespace on either end.
pub open spec fn trimmed(s: Seq<u8>) -> Seq<u8> {
    trim_back(trim_front(s))
}

/// The line without an optional leading `0x`.
pub open spec fn strip_0x(s: Seq<u8>) -> Seq<u8> {
    if s.len() >= 2 && s[0] == 48 && s[1] == 120 {
        s.subrange(2, s.len() as int)
    } else {
        s
    }
}

/// The value of one hexadecimal digit, or -1 for any other byte.
pub open spec fn hex_digit(b: u8) -> int {
    if 48 <= b <= 57 {
        b - 48
    } else if 97 <= b <= 102 {
        b - 87
    } else if 65 <= b <= 70 {
        b - 55
    } else {
        -1
    }
}

/// A nonempty string of hexadecimal digits.
pub open spec fn is_hex(s: Seq<u8>) -> bool {
    s.len() >= 1 && forall|i: int| 0 <= i < s.len() ==> hex_digit(#[trigger] s[i]) >= 0
}

/// The number a string of hexadecimal digits denotes.
pub open spec fn hex_value(s: Seq<u8>) -> int
    decreases s.len(),
{
    if s.len() == 0 {
        0
    } else {
        hex_value(s.drop_last()) * 16 + hex_digit(s.last())
    }
}

/// What one line of the colour file gives: its trimmed text, without the
/// optional `0x`, read as a hexadecimal number — if that text is a valid
/// hexadecimal number that fits 32 bits.
pub open spec fn parse_hex_line(line: Seq<u8>) -> Option<u32> {
    let t = strip_0x(trimmed(line));
    if is_hex(t) && hex_value(t) <= 0xFFFF_FFFF {
        Some(hex_value(t) as u32)
    } else {
        None
    }
}

/// The lines of `s`, split at every newline byte; a trailing fragment
/// counts only if nonempty, as the accumulator shows.
pub open spec fn split_lines(acc: Seq<Seq<u8>>, cur: Seq<u8>, s: Seq<u8>) -> Seq<Seq<u8>>
    decreases s.len(),
{
    if s.len() == 0 {
        if cur.len() > 0 {
            acc.push(cur)
        } else {
            acc
        }
    } else if s[0] == 10 {
        split_lines(acc.push(cur), Seq::empty(), s.drop_first())
    } else {
        split_lines(acc, cur.push(s[0]), s.drop_first())
    }
}

/// The lines of the file.
pub open spec fn lines_of(s: Seq<u8>) -> Seq<Seq<u8>> {
    split_lines(Seq::empty(), Seq::empty(), s)
}

/// The predicate keeping the nonblank lines.
pub open spec fn nonblank_pred() -> spec_fn(Seq<u8>) -> bool {
    |l: Seq<u8>| trimmed(l).len() > 0
}

/// The nonblank lines of the file, in order.
pub open spec fn nonblank_lines(s: Seq<u8>) -> Seq<Seq<u8>> {
    lines_of(s).filter(nonblank_pred())
}

/// The colour slot `i` receives from the file's bytes: the value of the
/// i-th nonblank line if it parses, the built-in default otherwise or when
/// the file is short.
pub open spec fn colour_slot(content: Seq<u8>, i: int) -> u32 {
    let ls = nonblank_lines(content);
    if 0 <= i < ls.len() && i < 6 {
        match parse_hex_line(ls[i]) {
            Some(v) => v,
            None => default_colour(i),
        }
    } else {
        default_colour(i)
    }
}

/// The theme the file's bytes resolve to.
pub open spec fn theme_of(content: Seq<u8>) -> Theme {
    Theme {
        highbackground: colour_slot(content, 0),
        lowbackground: colour_slot(content, 1),
        highlight: colour_slot(content, 2),
        lowlight: colour_slot(content, 3),
        wallpaper: colour_slot(content, 4),
        titlebar: colour_slot(content, 5),
    }
}

impl Theme {
    /// The built-in colours, used when no configuration file is readable.
    pub fn defaults() -> (t: Theme)
        ensures
            t == theme_of(Seq::<u8>::empty()),
            t.highbackground == 0xBBBBBB,
            t.lowbackground == 0x888888,
            t.highlight == 0xFFFFFF,
            t.lowlight == 0x000000,
            t.wallpaper == 0x008080,
            t.titlebar == 0x0000A8,
    {
        proof {
            assert(lines_of(Seq::<u8>::empty()) =~= Seq::<Seq<u8>>::empty());
            assert(nonblank_lines(Seq::<u8>::empty()) =~= Seq::<Seq<u8>>::empty());
        }
        Theme {
            highbackground: 0xBBBBBB,
            lowbackground: 0x888888,
            highlight: 0xFFFFFF,
            lowlight: 0x000000,
            wallpaper: 0x008080,
            titlebar: 0x0000A8,
        }
    }
}

/// Splits the file into its lines.
fn splitlines(content: &Vec<u8>) -> (r: Vec<Vec<u8>>)
    ensures
        r@.map_values(|l: Vec<u8>| l@) == lines_of(content@),
{
    let mut r: Vec<Vec<u8>> = Vec::new();
    let mut cur: Vec<u8> = Vec::new();
    let mut i: usize = 0;
    proof {
        assert(content@.subrange(0, content@.len() as int) =~= content@);
        assert(r@.map_values(|l: Vec<u8>| l@) =~= Seq::<Seq<u8>>::empty());
        assert(cur@ =~= Seq::<u8>::empty());
    }
    while i < content.len()
        invariant
            i <= content@.len(),
            split_lines(r@.map_values(|l: Vec<u8>| l@), cur@, content@.subrange(i as int, content@.len() as int))
                == lines_of(content@),
        decreases content@.len() - i,
    {
        let ghost rest = content@.subrange(i as int, content@.len() as int);
        proof {
            assert(rest.drop_first() =~= content@.subrange(i as int + 1, content@.len() as int));
            assert(rest[0] == content@[i as int]);
        }
        let b = content[i];
        if b == 10 {
            let ghost racc = r@.map_values(|l: Vec<u8>| l@);
            cur = crate::colours::take_vec(&mut r, cur);
            proof {
                assert(r@.map_values(|l: Vec<u8>| l@) =~= racc.push(old_line_view(r@)));
            }
        } else {
            cur.push(b);
        }
        i = i + 1;
    }
    proof {
        assert(content@.subrange(i as int, content@.len() as int) =~= Seq::<u8>::empty());
    }
    if cur.len() > 0 {
        r.push(cur);
    }
    r
}

/// The view of the last line pushed.
pub open spec fn old_line_view(r: Seq<Vec<u8>>) -> Seq<u8> {
    r.last()@
}

/// Pushes the finished line and hands back a fresh one.
fn take_vec(r: &mut Vec<Vec<u8>>, cur: Vec<u8>) -> (fresh: Vec<u8>)
    ensures
        final(r)@ == old(r)@.push(cur),
        fresh@ == Seq::<u8>::empty(),
{
    r.push(cur);
    Vec::new()
}

/// Whether a byte is trimmed whitespace.
fn spacebyte(b: u8) -> (r: bool)
    ensures
        r == is_space(b),
{
    b == 32 || b == 9 || b == 13 || b == 11 || b == 12
}

/// Trims whitespace off both ends of a line.
fn trimbytes(line: &Vec<u8>) -> (t: Vec<u8>)
    ensures
        t@ == trimmed(line@),
{
    let n = line.len();
    let mut a: usize = 0;
    proof {
        assert(line@.subrange(0, n as int) =~= line@);
    }
    while a < n && spacebyte(line[a])
        invariant
            a <= n,
            n == line@.len(),
            trim_front(line@) == trim_front(line@.subrange(a as int, n as int)),
        decreases n - a,
    {
        proof {
            let rest = line@.subrange(a as int, n as int);
            assert(rest[0] == line@[a as int]);
            assert(rest.drop_first() =~= line@.subrange(a as int + 1, n as int));
        }
        a = a + 1;
    }
    proof {
        let rest = line@.subrange(a as int, n as int);
        if a < n {
            assert(rest[0] == line@[a as int]);
        }
        assert(trim_front(line@) == rest);
        assert(line@.subrange(0, n as int) =~= line@);
    }
    let mut e: usize = n;
    while e > a && spacebyte(line[e - 1])
        invariant
            a <= e <= n,
            n == line@.len(),
            trim_front(line@) == line@.subrange(a as int, n as int),
            trim_back(line@.subrange(a as int, n as int)) == trim_back(
                line@.subrange(a as int, e as int),
            ),
        decreases e,
    {
        proof {
            let part = line@.subrange(a as int, e as int);
            assert(part.last() == line@[e as int - 1]);
            assert(part.drop_last() =~= line@.subrange(a as int, e as int - 1));
        }
        e = e - 1;
    }
    proof {
        let part = line@.subrange(a as int, e as int);
        if e > a {
            assert(part.last() == line@[e as int - 1]);
        }
        assert(trim_back(line@.subrange(a as int, n as int)) == part);
    }
    let mut t: Vec<u8> = Vec::new();
    let mut j: usize = a;
    while j < e
        invariant
            a <= j <= e <= n,
            n == line@.len(),
            t@ == line@.subrange(a as int, j as int),
        decreases e - j,
    {
        t.push(line[j]);
        proof {
            assert(t@ =~= line@.subrange(a as int, j as int + 1));
        }
        j = j + 1;
    }
    proof {
        assert(t@ == trimmed(line@));
    }
    t
}

/// The value of one hexadecimal digit byte, or -1.
fn hexdigitbyte(b: u8) -> (r: i8)
    ensures
        r as int == hex_digit(b),
{
    if 48 <= b && b <= 57 {
        (b - 48) as i8
    } else if 97 <= b && b <= 102 {
        (b - 87) as i8
    } else if 65 <= b && b <= 70 {
        (b - 55) as i8
    } else {
        -1
    }
}

/// Parses one line of the colour file.
fn parsehexline(line: &Vec<u8>) -> (r: Option<u32>)
    ensures
        r == parse_hex_line(line@),
{
    let t = trimbytes(line);
    let n = t.len();
    let start: usize = if n >= 2 && t[0] == 48 && t[1] == 120 {
        2
    } else {
        0
    };
    let ghost u = strip_0x(trimmed(line@));
    proof {
        assert(u =~= t@.subrange(start as int, n as int));
    }
    if start == n {
        proof {
            assert(u.len() == 0);
            assert(!is_hex(u));
            assert(parse_hex_line(line@) is None);
        }
        return None;
    }
    let mut val: u64 = 0;
    let mut over: bool = false;
    let mut j: usize = start;
    while j < n
        invariant
            start <= j <= n,
            n == t@.len(),
            u == t@.subrange(start as int, n as int),
            u == strip_0x(trimmed(line@)),
            forall|k: int| 0 <= k < j - start ==> hex_digit(#[trigger] u[k]) >= 0,
            0 <= hex_value(u.subrange(0, j - start)),
            !over ==> val == hex_value(u.subrange(0, j - start)) && val <= 0xFFFF_FFFF,
            over ==> hex_value(u.subrange(0, j - start)) > 0xFFFF_FFFF,
        decreases n - j,
    {
        let d = hexdigitbyte(t[j]);
        proof {
            assert(u[j - start] == t@[j as int]);
        }
        if d < 0 {
            proof {
                assert(hex_digit(u[j - start]) < 0);
                assert(!is_hex(u));
                assert(parse_hex_line(line@) is None);
            }
            return None;
        }
        proof {
            let pre = u.subrange(0, j - start);
            let pre2 = u.subrange(0, j + 1 - start);
            assert(pre2.drop_last() =~= pre);
            assert(pre2.last() == u[j - start]);
            assert(hex_value(pre2) == hex_value(pre) * 16 + hex_digit(u[j - start]));
        }
        if !over {
            let nv: u64 = val * 16 + (d as u64);
            if nv > 0xFFFF_FFFF {
                over = true;
            } else {
                val = nv;
            }
        } else {
            proof {
                let pre = u.subrange(0, j - start);
                assert(hex_value(pre) * 16 >= hex_value(pre));
            }
        }
        j = j + 1;
    }
    proof {
        assert(u.subrange(0, n - start) =~= u);
        assert(is_hex(u));
    }
    if over {
        None
    } else {
        Some(val as u32)
    }
}

/// Resolves the whole theme from the colour file's bytes: the first six
/// nonblank lines are parsed in order, each slot falling back to its
/// built-in default when its line is missing or not a hexadecimal value.
pub fn loadcolours(content: &Vec<u8>) -> (t: Theme)
    ensures
        t == theme_of(content@),
{
    let lines = splitlines(content);
    let ghost lv = lines@.map_values(|l: Vec<u8>| l@);
    let ghost pred = nonblank_pred();
    let mut slots: [u32; 6] = [0xBBBBBB, 0x888888, 0xFFFFFF, 0x000000, 0x008080, 0x0000A8];
    proof {
        assert(forall|i: int| 0 <= i < 6 ==> slots@[i] == default_colour(i));
    }
    let mut k: usize = 0;
    let mut li: usize = 0;
    while li < lines.len()
        invariant
            li <= lines@.len(),
            lv == lines@.map_values(|l: Vec<u8>| l@),
            pred == nonblank_pred(),
            k == lv.subrange(0, li as int).filter(pred).len(),
            slots@.len() == 6,
            forall|s: int|
                0 <= s < 6 && s < k ==> slots@[s] == (match parse_hex_line(
                    lv.subrange(0, li as int).filter(pred)[s],
                ) {
                    Some(v) => v,
                    None => default_colour(s),
                }),
            forall|s: int| 0 <= s < 6 && s >= k ==> slots@[s] == default_colour(s),
        decreases lines@.len() - li,
    {
        let ghost fl = lv.subrange(0, li as int).filter(pred);
        let ghost fl2 = lv.subrange(0, li as int + 1).filter(pred);
        proof {
            reveal(Seq::filter);
            let p2 = lv.subrange(0, li as int + 1);
            assert(p2.drop_last() =~= lv.subrange(0, li as int));
            assert(p2.last() == lv[li as int]);
            assert(lv[li as int] == lines@[li as int]@);
            if pred(lv[li as int]) {
                assert(fl2 =~= fl.push(lv[li as int]));
            } else {
                assert(fl2 =~= fl);
            }
        }
        let tr = trimbytes(&lines[li]);
        if tr.len() > 0 {
            if k < 6 {
                let parsed = parsehexline(&lines[li]);
                let v = match parsed {
                    Some(v) => v,
                    None => match k {
                        0 => 0xBBBBBB,
                        1 => 0x888888,
                        2 => 0xFFFFFF,
                        3 => 0x000000,
                        4 => 0x008080,
                        _ => 0x0000A8,
                    },
                };
                slots[k] = v;
                proof {
                    assert(fl2[k as int] == lv[li as int]);
                    assert(forall|s: int| 0 <= s < k ==> #[trigger] fl2[s] == fl[s]);
                }
            }
            k = k + 1;
        }
        li = li + 1;
    }
    proof {
        assert(lv.subrange(0, lines@.len() as int) =~= lv);
        assert(lv.filter(pred) == nonblank_lines(content@));
    }
    let t = Theme {
        highbackground: slots[0],
        lowbackground: slots[1],
        highlight: slots[2],
        lowlight: slots[3],
        wallpaper: slots[4],
        titlebar: slots[5],
    };
    t
}

} // verus!
