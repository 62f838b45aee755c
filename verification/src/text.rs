//! Text-fitting helpers for panel widgets: truncating a title to the pixel
//! width of a taskbar button and wrapping a paragraph into lines.
//!
//! Titles travel through the library as raw bytes, exactly as they are read
//! from and handed to the display protocol.

use vstd::prelude::*;

verus! {

/// The ellipsis appended to a truncated title, as bytes.
pub open spec fn ellipsis() -> Seq<u8> {
    seq![46u8, 46u8, 46u8]
}

/// What `squishtext` returns: the title unchanged when it fits in
/// `width` pixels at `length` pixels per character, a truncated copy with a
/// trailing `...` when at least four characters fit, a bare prefix when one
/// to three fit, and nothing when the width cannot hold even the margin.
pub open spec fn squished(t: Seq<u8>, width: int, length: int) -> Seq<u8>
    recommends
        1 <= length,
{
    if width < length + 2 {
        Seq::empty()
    } else {
        let characters = (width - 2) / length;
        if t.len() <= characters {
            t
        } else if characters > 3 {
            t.subrange(0, characters - 3) + ellipsis()
        } else {
            t.subrange(0, characters)
        }
    }
}

/// Compares two byte strings for equality of contents.
pub fn bytes_eq(a: &Vec<u8>, b: &Vec<u8>) -> (r: bool)
    ensures
        r == (a@ == b@),
{
    if a.len() != b.len() {
        return false;
    }
    let mut i: usize = 0;
    while i < a.len()
        invariant
            a@.len() == b@.len(),
            i <= a@.len(),
            forall|j: int| 0 <= j < i ==> a@[j] == b@[j],
        decreases a@.len() - i,
    {
        if a[i] != b[i] {
            return false;
        }
        i = i + 1;
    }
    proof {
        assert(a@ =~= b@);
    }
    true
}

/// Copies the first `n` bytes of `text` into a fresh vector.
fn byte_prefix(text: &Vec<u8>, n: usize) -> (out: Vec<u8>)
    requires
        n <= text@.len(),
    ensures
        out@ == text@.subrange(0, n as int),
{
    let mut out: Vec<u8> = Vec::new();
    let mut i: usize = 0;
    while i < n
        invariant
            i <= n <= text@.len(),
            out@ == text@.subrange(0, i as int),
        decreases n - i,
    {
        out.push(text[i]);
        i = i + 1;
        proof {
            assert(out@ =~= text@.subrange(0, i as int));
        }
    }
    out
}

/// Fits a title into `width` pixels given a fixed per-character advance of
/// `length` pixels, truncating with a `...` suffix when it is too long.
pub fn squishtext(text: &Vec<u8>, width: i64, length: i64) -> (out: Vec<u8>)
    requires
        1 <= length <= 0x7fff,
        width <= 0x7fff,
    ensures
        out@ == squished(text@, width as int, length as int),
{
    if width < length + 2 {
        Vec::new()
    } else {
        let characters: i64 = (width - 2) / length;
        assert(characters == (width - 2) as int / length as int);
        if text.len() <= characters as usize {
            let whole = byte_prefix(text, text.len());
            proof {
                assert(whole@ =~= text@);
            }
            whole
        } else if characters > 3 {
            let mut out = byte_prefix(text, (characters - 3) as usize);
            out.push(46u8);
            out.push(46u8);
            out.push(46u8);
            proof {
                assert(out@ =~= text@.subrange(0, characters - 3) + ellipsis());
            }
            out
        } else {
            byte_prefix(text, characters as usize)
        }
    }
}

/// Whitespace for word-splitting purposes.
pub open spec fn is_ws(b: u8) -> bool {
    b == 32 || b == 9 || b == 10 || b == 13 || b == 11 || b == 12
}

/// The letters of a byte string: everything that is not whitespace, in
/// order.
pub open spec fn letters(s: Seq<u8>) -> Seq<u8>
    decreases s.len(),
{
    if s.len() == 0 {
        Seq::empty()
    } else if is_ws(s.last()) {
        letters(s.drop_last())
    } else {
        letters(s.drop_last()).push(s.last())
    }
}

/// The lines of a wrapped text, joined back together.
pub open spec fn flat(lines: Seq<Seq<u8>>) -> Seq<u8>
    decreases lines.len(),
{
    if lines.len() == 0 {
        Seq::empty()
    } else {
        flat(lines.drop_last()) + lines.last()
    }
}

/// Letters distribute over concatenation.
proof fn lemma_letters_add(a: Seq<u8>, b: Seq<u8>)
    ensures
        letters(a + b) == letters(a) + letters(b),
    decreases b.len(),
{
    if b.len() == 0 {
        assert(a + b =~= a);
        assert(letters(a) + b =~= letters(a));
    } else {
        lemma_letters_add(a, b.drop_last());
        assert((a + b).drop_last() =~= a + b.drop_last());
        assert((a + b).last() == b.last());
        if is_ws(b.last()) {
            assert(letters(b) == letters(b.drop_last()));
        } else {
            assert(letters(a) + letters(b) =~= (letters(a) + letters(b.drop_last())).push(
                b.last(),
            ));
        }
    }
}

/// Letters of an all-letter string are the string itself.
proof fn lemma_letters_all(s: Seq<u8>)
    requires
        forall|k: int| 0 <= k < s.len() ==> !is_ws(#[trigger] s[k]),
    ensures
        letters(s) == s,
    decreases s.len(),
{
    if s.len() > 0 {
        lemma_letters_all(s.drop_last());
        assert(letters(s.drop_last()).push(s.last()) =~= s);
    }
}

/// Wraps a text into lines of at most `width / charwidth` characters: words
/// are packed greedily with single spaces, and a word longer than a line is
/// cut into full-width pieces.  Every produced line is nonempty and fits,
/// and no letter is lost, duplicated or reordered.
pub fn wraptext(text: &Vec<u8>, width: i64, charwidth: i64) -> (lines: Vec<Vec<u8>>)
    requires
        1 <= charwidth <= 0x7fff,
        charwidth <= width <= 0x7fff,
    ensures
        letters(flat(lines@.map_values(|l: Vec<u8>| l@))) == letters(text@),
        forall|i: int|
            0 <= i < lines@.len() ==> 1 <= (#[trigger] lines@[i])@.len() <= width as int
                / charwidth as int,
{
    let maxc: usize = (width / charwidth) as usize;
    proof {
        assert(1 <= width as int / charwidth as int <= 0x7fff) by (nonlinear_arith)
            requires
                1 <= charwidth <= width <= 0x7fff,
        ;
        assert(1 <= maxc);
    }
    let n = text.len();
    let mut lines: Vec<Vec<u8>> = Vec::new();
    let mut cur: Vec<u8> = Vec::new();
    let mut i: usize = 0;
    proof {
        assert(text@.subrange(0, 0) =~= Seq::<u8>::empty());
        assert(lines@.map_values(|l: Vec<u8>| l@) =~= Seq::<Seq<u8>>::empty());
        assert(flat(lines@.map_values(|l: Vec<u8>| l@)) + cur@ =~= Seq::<u8>::empty());
    }
    while i < n
        invariant
            i <= n,
            n == text@.len(),
            1 <= maxc,
            maxc == width as int / charwidth as int,
            cur@.len() <= maxc,
            letters(flat(lines@.map_values(|l: Vec<u8>| l@)) + cur@) == letters(
                text@.subrange(0, i as int),
            ),
            forall|k: int|
                0 <= k < lines@.len() ==> 1 <= (#[trigger] lines@[k])@.len() <= maxc,
        decreases n - i,
    {
        let ghost lv0 = lines@.map_values(|l: Vec<u8>| l@);
        let ghost cur0 = cur@;
        let b = text[i];
        if b == 32 || b == 9 || b == 10 || b == 13 || b == 11 || b == 12 {
            proof {
                let p = text@.subrange(0, i as int + 1);
                assert(p.drop_last() =~= text@.subrange(0, i as int));
                assert(p.last() == text@[i as int]);
            }
            i = i + 1;
            continue ;
        }
        let mut j: usize = i;
        let mut word: Vec<u8> = Vec::new();
        while j < n && !(text[j] == 32 || text[j] == 9 || text[j] == 10 || text[j] == 13 || text[j]
            == 11 || text[j] == 12)
            invariant
                i <= j <= n,
                n == text@.len(),
                word@ == text@.subrange(i as int, j as int),
                forall|k: int| 0 <= k < word@.len() ==> !is_ws(#[trigger] word@[k]),
            decreases n - j,
        {
            word.push(text[j]);
            proof {
                assert(word@ =~= text@.subrange(i as int, j as int + 1));
            }
            j = j + 1;
        }
        proof {
            assert(!is_ws(text@[i as int]));
            assert(word@.len() >= 1) by {
                assert(word@ =~= text@.subrange(i as int, j as int));
            }
            assert(text@.subrange(0, j as int) =~= text@.subrange(0, i as int) + word@);
            lemma_letters_add(text@.subrange(0, i as int), word@);
            lemma_letters_all(word@);
            assert(letters(text@.subrange(0, j as int)) == letters(text@.subrange(0, i as int))
                + word@);
        }
        let wlen = word.len();
        if cur.len() == 0 && wlen <= maxc {
            cur = word;
            proof {
                lemma_letters_add(flat(lv0) + cur0, cur@);
                assert((flat(lv0) + cur0) + cur@ =~= flat(lv0) + cur@) by {
                    assert(cur0 =~= Seq::<u8>::empty());
                }
                lemma_letters_all(cur@);
            }
        } else if cur.len() > 0 && cur.len() < maxc && wlen <= maxc - cur.len() - 1 {
            cur.push(32u8);
            let mut wk: usize = 0;
            while wk < wlen
                invariant
                    wk <= wlen,
                    wlen == word@.len(),
                    cur@ == cur0 + seq![32u8] + word@.subrange(0, wk as int),
                decreases wlen - wk,
            {
                cur.push(word[wk]);
                proof {
                    assert(cur@ =~= cur0 + seq![32u8] + word@.subrange(0, wk as int + 1));
                }
                wk = wk + 1;
            }
            proof {
                assert(word@.subrange(0, wlen as int) =~= word@);
                assert(flat(lv0) + cur@ =~= (flat(lv0) + cur0) + (seq![32u8] + word@));
                lemma_letters_add(flat(lv0) + cur0, seq![32u8] + word@);
                lemma_letters_add(seq![32u8], word@);
                lemma_letters_all(word@);
                assert(letters(seq![32u8]) =~= Seq::<u8>::empty()) by {
                    assert(seq![32u8].drop_last() =~= Seq::<u8>::empty());
                    assert(seq![32u8].last() == 32u8);
                    assert(letters(seq![32u8]) == letters(Seq::<u8>::empty()));
                    assert(letters(Seq::<u8>::empty()) =~= Seq::<u8>::empty());
                }
                assert(letters(seq![32u8] + word@) =~= word@);
            }
        } else {
            if cur.len() > 0 {
                lines.push(cur);
                cur = Vec::new();
                proof {
                    assert(lines@.map_values(|l: Vec<u8>| l@) =~= lv0.push(cur0));
                    assert(flat(lv0.push(cur0)) == flat(lv0) + cur0) by {
                        assert(lv0.push(cur0).drop_last() =~= lv0);
                        assert(lv0.push(cur0).last() == cur0);
                    }
                    assert(flat(lv0.push(cur0)) + cur@ =~= flat(lv0) + cur0);
                }
            } else {
                proof {
                    assert(flat(lv0) + cur@ =~= flat(lv0) + cur0);
                }
            }
            let ghost lv1 = lines@.map_values(|l: Vec<u8>| l@);
            proof {
                assert(letters(flat(lv1) + cur@) == letters(text@.subrange(0, i as int)));
                assert(cur@ =~= Seq::<u8>::empty());
                assert(flat(lv1) + cur@ =~= flat(lv1));
            }
            let mut wk: usize = 0;
            while wlen - wk >= maxc
                invariant
                    wk <= wlen,
                    wlen == word@.len(),
                    1 <= maxc,
                    forall|k: int| 0 <= k < word@.len() ==> !is_ws(#[trigger] word@[k]),
                    letters(flat(lines@.map_values(|l: Vec<u8>| l@))) == letters(flat(lv1))
                        + word@.subrange(0, wk as int),
                    forall|k: int|
                        0 <= k < lines@.len() ==> 1 <= (#[trigger] lines@[k])@.len() <= maxc,
                decreases wlen - wk,
            {
                let ghost lvc = lines@.map_values(|l: Vec<u8>| l@);
                let mut piece: Vec<u8> = Vec::new();
                let mut pk: usize = 0;
                while pk < maxc
                    invariant
                        pk <= maxc,
                        wk + maxc <= wlen,
                        wlen == word@.len(),
                        piece@ == word@.subrange(wk as int, wk as int + pk as int),
                    decreases maxc - pk,
                {
                    piece.push(word[wk + pk]);
                    proof {
                        assert(piece@ =~= word@.subrange(wk as int, wk as int + pk as int + 1));
                    }
                    pk = pk + 1;
                }
                lines.push(piece);
                proof {
                    let lvn = lines@.map_values(|l: Vec<u8>| l@);
                    assert(lvn =~= lvc.push(piece@));
                    assert(flat(lvc.push(piece@)) == flat(lvc) + piece@) by {
                        assert(lvc.push(piece@).drop_last() =~= lvc);
                        assert(lvc.push(piece@).last() == piece@);
                    }
                    lemma_letters_add(flat(lvc), piece@);
                    assert forall|k: int| 0 <= k < piece@.len() implies !is_ws(
                        #[trigger] piece@[k],
                    ) by {
                        assert(piece@[k] == word@[wk + k]);
                    }
                    lemma_letters_all(piece@);
                    assert(letters(flat(lvc)) + piece@ =~= letters(flat(lv1)) + word@.subrange(
                        0,
                        wk as int + maxc as int,
                    ));
                }
                wk = wk + maxc;
            }
            let mut rest: Vec<u8> = Vec::new();
            let mut pk: usize = wk;
            while pk < wlen
                invariant
                    wk <= pk <= wlen,
                    wlen == word@.len(),
                    rest@ == word@.subrange(wk as int, pk as int),
                decreases wlen - pk,
            {
                rest.push(word[pk]);
                proof {
                    assert(rest@ =~= word@.subrange(wk as int, pk as int + 1));
                }
                pk = pk + 1;
            }
            cur = rest;
            proof {
                let lvn = lines@.map_values(|l: Vec<u8>| l@);
                lemma_letters_add(flat(lvn), cur@);
                assert forall|k: int| 0 <= k < cur@.len() implies !is_ws(#[trigger] cur@[k]) by {
                    assert(cur@[k] == word@[wk + k]);
                }
                lemma_letters_all(cur@);
                assert(letters(flat(lvn) + cur@) == letters(flat(lvn)) + cur@) by {
                    lemma_letters_add(flat(lvn), cur@);
                }
                assert(letters(flat(lvn)) + cur@ =~= letters(flat(lv1)) + word@) by {
                    assert(word@.subrange(0, wk as int) + word@.subrange(wk as int, wlen as int)
                        =~= word@);
                }
            }
        }
        proof {
            lemma_letters_add(flat(lines@.map_values(|l: Vec<u8>| l@)), cur@);
        }
        i = j;
    }
    proof {
        assert(text@.subrange(0, n as int) =~= text@);
    }
    let ghost lvf = lines@.map_values(|l: Vec<u8>| l@);
    if cur.len() > 0 {
        lines.push(cur);
        proof {
            let lvn = lines@.map_values(|l: Vec<u8>| l@);
            assert(lvn =~= lvf.push(cur@));
            assert(flat(lvf.push(cur@)) == flat(lvf) + cur@) by {
                assert(lvf.push(cur@).drop_last() =~= lvf);
                assert(lvf.push(cur@).last() == cur@);
            }
        }
    } else {
        proof {
            assert(flat(lvf) + cur@ =~= flat(lvf));
        }
    }
    lines
}

} // verus!
