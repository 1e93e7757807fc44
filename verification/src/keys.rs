//! Object-store keys and URLs.
//!
//! The original of an ingestion is stored under `images/<id>.<ext>`; each
//! derivative under `images/<id>/<width>x<height>.jpg`. A stored object's
//! URL is the store's base URL followed by the key. The lemmas here show
//! that the keys of one ingestion never collide: the original's key differs
//! from every derivative key, distinct target sizes give distinct derivative
//! keys, and distinct keys give distinct URLs.

use vstd::prelude::*;
use vstd::string::*;

verus! {

/// A target size for one derivative: exact width and height in pixels.
#[derive(Clone, Copy, PartialEq, Eq, Structural, Debug)]
pub struct Dim {
    pub width: u32,
    pub height: u32,
}

/// The decimal digit character for a value below ten.
pub open spec fn dec_digit(d: int) -> char {
    if d == 0 {
        '0'
    } else if d == 1 {
        '1'
    } else if d == 2 {
        '2'
    } else if d == 3 {
        '3'
    } else if d == 4 {
        '4'
    } else if d == 5 {
        '5'
    } else if d == 6 {
        '6'
    } else if d == 7 {
        '7'
    } else if d == 8 {
        '8'
    } else {
        '9'
    }
}

pub open spec fn is_dec_digit(c: char) -> bool {
    c == '0' || c == '1' || c == '2' || c == '3' || c == '4' || c == '5' || c == '6' || c == '7'
        || c == '8' || c == '9'
}

/// The decimal representation of `n`, most significant digit first,
/// with no leading zeros (a single `'0'` for zero).
pub open spec fn spec_dec(n: nat) -> Seq<char>
    decreases n,
{
    if n < 10 {
        seq![dec_digit(n as int)]
    } else {
        spec_dec(n / 10).push(dec_digit((n % 10) as int))
    }
}

pub proof fn lemma_dec_len(n: nat)
    ensures
        spec_dec(n).len() >= 1,
    decreases n,
{
    if n >= 10 {
        lemma_dec_len(n / 10);
    }
}

pub proof fn lemma_dec_digits_are_digits(n: nat)
    ensures
        forall|i: int| 0 <= i < spec_dec(n).len() ==> is_dec_digit(#[trigger] spec_dec(n)[i]),
    decreases n,
{
    if n >= 10 {
        lemma_dec_digits_are_digits(n / 10);
        assert forall|i: int| 0 <= i < spec_dec(n).len() implies is_dec_digit(
            spec_dec(n)[i],
        ) by {
            if i < spec_dec(n / 10).len() {
                assert(spec_dec(n)[i] == spec_dec(n / 10)[i]);
            } else {
                assert(spec_dec(n)[i] == dec_digit((n % 10) as int));
            }
        }
    }
}

pub proof fn lemma_dec_digit_injective(a: int, b: int)
    requires
        0 <= a < 10,
        0 <= b < 10,
        dec_digit(a) == dec_digit(b),
    ensures
        a == b,
{
}

/// Two values with the same decimal representation are equal.
pub proof fn lemma_dec_injective(a: nat, b: nat)
    requires
        spec_dec(a) == spec_dec(b),
    ensures
        a == b,
    decreases a,
{
    lemma_dec_len(a);
    lemma_dec_len(b);
    if a < 10 && b < 10 {
        assert(spec_dec(a)[0] == dec_digit(a as int));
        assert(spec_dec(b)[0] == dec_digit(b as int));
        lemma_dec_digit_injective(a as int, b as int);
    } else if a < 10 {
        lemma_dec_len(b / 10);
        assert(spec_dec(b).len() >= 2);
        assert(false);
    } else if b < 10 {
        lemma_dec_len(a / 10);
        assert(spec_dec(a).len() >= 2);
        assert(false);
    } else {
        let sa = spec_dec(a / 10);
        let sb = spec_dec(b / 10);
        assert(spec_dec(a)[sa.len() as int] == dec_digit((a % 10) as int));
        assert(spec_dec(b)[sb.len() as int] == dec_digit((b % 10) as int));
        assert(sa.len() == sb.len());
        lemma_dec_digit_injective((a % 10) as int, (b % 10) as int);
        assert(sa =~= sb) by {
            assert forall|i: int| 0 <= i < sa.len() implies sa[i] == sb[i] by {
                assert(spec_dec(a)[i] == sa[i]);
                assert(spec_dec(b)[i] == sb[i]);
            }
        }
        lemma_dec_injective(a / 10, b / 10);
    }
}

fn digit_string(d: u32) -> (s: String)
    requires
        d < 10,
    ensures
        s@ == seq![dec_digit(d as int)],
{
    let s = if d == 0 {
        String::from_str("0")
    } else if d == 1 {
        String::from_str("1")
    } else if d == 2 {
        String::from_str("2")
    } else if d == 3 {
        String::from_str("3")
    } else if d == 4 {
        String::from_str("4")
    } else if d == 5 {
        String::from_str("5")
    } else if d == 6 {
        String::from_str("6")
    } else if d == 7 {
        String::from_str("7")
    } else if d == 8 {
        String::from_str("8")
    } else {
        String::from_str("9")
    };
    proof {
        reveal_strlit("0");
        reveal_strlit("1");
        reveal_strlit("2");
        reveal_strlit("3");
        reveal_strlit("4");
        reveal_strlit("5");
        reveal_strlit("6");
        reveal_strlit("7");
        reveal_strlit("8");
        reveal_strlit("9");
        assert(s@ =~= seq![dec_digit(d as int)]);
    }
    s
}

/// Format a value in decimal.
pub fn u32_string(n: u32) -> (s: String)
    ensures
        s@ == spec_dec(n as nat),
    decreases n,
{
    if n < 10 {
        digit_string(n)
    } else {
        let mut s = u32_string(n / 10);
        let d = digit_string(n % 10);
        s.append(d.as_str());
        proof {
            assert(s@ =~= spec_dec(n as nat));
        }
        s
    }
}

/// The size key of a target size: `<width>x<height>`.
pub open spec fn spec_size_key(d: Dim) -> Seq<char> {
    spec_dec(d.width as nat) + seq!['x'] + spec_dec(d.height as nat)
}

pub fn size_key(d: Dim) -> (s: String)
    ensures
        s@ == spec_size_key(d),
{
    let mut s = u32_string(d.width);
    s.append("x");
    let h = u32_string(d.height);
    s.append(h.as_str());
    proof {
        reveal_strlit("x");
        assert("x"@ =~= seq!['x']);
        assert(s@ =~= spec_size_key(d));
    }
    s
}

/// Distinct target sizes have distinct size keys: the key determines the
/// size, because the separator `'x'` is not a digit.
pub proof fn lemma_size_key_injective(a: Dim, b: Dim)
    requires
        spec_size_key(a) == spec_size_key(b),
    ensures
        a == b,
{
    let wa = spec_dec(a.width as nat);
    let ha = spec_dec(a.height as nat);
    let wb = spec_dec(b.width as nat);
    let hb = spec_dec(b.height as nat);
    lemma_dec_len(a.width as nat);
    lemma_dec_len(b.width as nat);
    lemma_dec_digits_are_digits(a.width as nat);
    lemma_dec_digits_are_digits(b.width as nat);
    let ka = spec_size_key(a);
    let kb = spec_size_key(b);
    assert(ka.len() == wa.len() + 1 + ha.len());
    assert(kb.len() == wb.len() + 1 + hb.len());
    if wa.len() < wb.len() {
        assert(ka[wa.len() as int] == 'x');
        assert(kb[wa.len() as int] == wb[wa.len() as int]);
        assert(is_dec_digit(wb[wa.len() as int]));
        assert(false);
    }
    if wb.len() < wa.len() {
        assert(kb[wb.len() as int] == 'x');
        assert(ka[wb.len() as int] == wa[wb.len() as int]);
        assert(is_dec_digit(wa[wb.len() as int]));
        assert(false);
    }
    assert(wa.len() == wb.len());
    assert(wa =~= wb) by {
        assert forall|i: int| 0 <= i < wa.len() implies wa[i] == wb[i] by {
            assert(ka[i] == wa[i]);
            assert(kb[i] == wb[i]);
        }
    }
    lemma_dec_injective(a.width as nat, b.width as nat);
    assert(ha =~= hb) by {
        assert(ha.len() == hb.len());
        assert forall|i: int| 0 <= i < ha.len() implies ha[i] == hb[i] by {
            assert(ka[wa.len() + 1 + i] == ha[i]);
            assert(kb[wb.len() + 1 + i] == hb[i]);
        }
    }
    lemma_dec_injective(a.height as nat, b.height as nat);
}

/// The key of the original upload: `images/<id>.<ext>`.
pub open spec fn spec_original_key(id: Seq<char>, ext: Seq<char>) -> Seq<char> {
    "images/"@ + id + "."@ + ext
}

pub fn original_key(id: &String, ext: &String) -> (s: String)
    ensures
        s@ == spec_original_key(id@, ext@),
{
    let mut s = String::from_str("images/");
    s.append(id.as_str());
    s.append(".");
    s.append(ext.as_str());
    proof {
        assert(s@ =~= spec_original_key(id@, ext@));
    }
    s
}

/// The key of one derivative: `images/<id>/<width>x<height>.jpg`.
pub open spec fn spec_derivative_key(id: Seq<char>, d: Dim) -> Seq<char> {
    "images/"@ + id + "/"@ + spec_size_key(d) + ".jpg"@
}

pub fn derivative_key(id: &String, d: Dim) -> (s: String)
    ensures
        s@ == spec_derivative_key(id@, d),
{
    let mut s = String::from_str("images/");
    s.append(id.as_str());
    s.append("/");
    let sk = size_key(d);
    s.append(sk.as_str());
    s.append(".jpg");
    proof {
        assert(s@ =~= spec_derivative_key(id@, d));
    }
    s
}

/// The URL of a stored object: the store's base URL followed by the key.
pub open spec fn spec_object_url(base: Seq<char>, key: Seq<char>) -> Seq<char> {
    base + key
}

pub fn object_url(base: &String, key: &String) -> (s: String)
    ensures
        s@ == spec_object_url(base@, key@),
{
    let mut s = base.clone();
    s.append(key.as_str());
    s
}

/// Within one ingestion, the original's key differs from every derivative
/// key: at the position right after `images/<id>` the former holds `'.'`,
/// the latter `'/'`.
pub proof fn lemma_original_key_ne_derivative_key(id: Seq<char>, ext: Seq<char>, d: Dim)
    ensures
        spec_original_key(id, ext) != spec_derivative_key(id, d),
{
    reveal_strlit("images/");
    reveal_strlit(".");
    reveal_strlit("/");
    reveal_strlit(".jpg");
    let l = spec_original_key(id, ext);
    let r = spec_derivative_key(id, d);
    let p = 7 + id.len() as int;
    let head = "images/"@ + id;
    assert(l[p] == '.') by {
        assert((head + "."@)[p] == "."@[0]);
        assert(l[p] == (head + "."@)[p]);
    }
    assert(r[p] == '/') by {
        assert((head + "/"@)[p] == "/"@[0]);
        assert((head + "/"@ + spec_size_key(d))[p] == (head + "/"@)[p]);
        assert(r[p] == (head + "/"@ + spec_size_key(d))[p]);
    }
    assert(l != r);
}

/// Distinct target sizes give distinct derivative keys for the same
/// ingestion.
pub proof fn lemma_derivative_keys_injective(id: Seq<char>, d1: Dim, d2: Dim)
    requires
        spec_derivative_key(id, d1) == spec_derivative_key(id, d2),
    ensures
        d1 == d2,
{
    reveal_strlit("images/");
    reveal_strlit("/");
    reveal_strlit(".jpg");
    let head = "images/"@ + id + "/"@;
    let s1 = spec_size_key(d1);
    let s2 = spec_size_key(d2);
    let k1 = spec_derivative_key(id, d1);
    let k2 = spec_derivative_key(id, d2);
    assert(k1.len() == head.len() + s1.len() + 4);
    assert(k2.len() == head.len() + s2.len() + 4);
    assert(s1.len() == s2.len());
    assert(s1 =~= s2) by {
        assert forall|i: int| 0 <= i < s1.len() implies s1[i] == s2[i] by {
            assert((head + s1)[head.len() + i] == s1[i]);
            assert(k1[head.len() + i] == (head + s1)[head.len() + i]);
            assert((head + s2)[head.len() + i] == s2[i]);
            assert(k2[head.len() + i] == (head + s2)[head.len() + i]);
        }
    }
    lemma_size_key_injective(d1, d2);
}

/// Under one base URL, distinct keys give distinct URLs.
pub proof fn lemma_object_url_injective(base: Seq<char>, k1: Seq<char>, k2: Seq<char>)
    requires
        spec_object_url(base, k1) == spec_object_url(base, k2),
    ensures
        k1 == k2,
{
    assert((base + k1).len() == base.len() + k1.len());
    assert((base + k2).len() == base.len() + k2.len());
    assert(k1.len() == k2.len());
    assert(k1 =~= k2) by {
        assert forall|i: int| 0 <= i < k1.len() implies k1[i] == k2[i] by {
            assert((base + k1)[base.len() + i] == k1[i]);
            assert((base + k2)[base.len() + i] == k2[i]);
        }
    }
}

} // verus!
