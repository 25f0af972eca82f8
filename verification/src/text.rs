//! Text helpers: concatenation, comparison, decimal rendering and splitting.
//!
//! Everything here is stated over the character sequence of a string.

use vstd::prelude::*;
use vstd::utf8::encode_utf8;
use vstd::utf8::*;

verus! {

broadcast use vstd::string::group_string_axioms;

/// `String::push` appends one character at the end.
pub assume_specification[ std::string::String::push ](s: &mut std::string::String, c: char)
    ensures
        final(s)@ == old(s)@.push(c),
;

/// The lower-case form of a text under the Unicode rules of `str::to_lowercase`.
pub uninterp spec fn lowercased(s: Seq<char>) -> Seq<char>;

/// `str::to_lowercase`: the lower-case form of `s`. Which characters change, and into
/// what, is left to Unicode's tables and is not stated.
#[verifier::external_body]
pub(crate) fn to_lowercase(s: &str) -> (r: String)
    ensures
        r@ == lowercased(s@),
{
    s.to_lowercase()
}

/// An owned copy of `s`.
pub fn owned(s: &str) -> (r: String)
    ensures
        r@ == s@,
{
    s.to_owned()
}

/// Joins two texts.
pub fn cat2(a: &str, b: &str) -> (r: String)
    ensures
        r@ == a@ + b@,
{
    let mut r: String = a.to_owned();
    r.append(b);
    r
}

/// Joins three texts.
pub fn cat3(a: &str, b: &str, c: &str) -> (r: String)
    ensures
        r@ == a@ + b@ + c@,
{
    let mut r: String = a.to_owned();
    r.append(b);
    r.append(c);
    r
}

/// Joins four texts.
pub fn cat4(a: &str, b: &str, c: &str, d: &str) -> (r: String)
    ensures
        r@ == a@ + b@ + c@ + d@,
{
    let mut r: String = a.to_owned();
    r.append(b);
    r.append(c);
    r.append(d);
    r
}

/// Joins five texts.
pub fn cat5(a: &str, b: &str, c: &str, d: &str, e: &str) -> (r: String)
    ensures
        r@ == a@ + b@ + c@ + d@ + e@,
{
    let mut r: String = a.to_owned();
    r.append(b);
    r.append(c);
    r.append(d);
    r.append(e);
    r
}

/// The decimal digit `d` as text.
pub open spec fn digit_text(d: nat) -> Seq<char> {
    if d == 0 {
        "0"@
    } else if d == 1 {
        "1"@
    } else if d == 2 {
        "2"@
    } else if d == 3 {
        "3"@
    } else if d == 4 {
        "4"@
    } else if d == 5 {
        "5"@
    } else if d == 6 {
        "6"@
    } else if d == 7 {
        "7"@
    } else if d == 8 {
        "8"@
    } else {
        "9"@
    }
}

/// The decimal text of `n`, without leading zeros.
pub open spec fn decimal(n: nat) -> Seq<char>
    decreases n,
{
    if n < 10 {
        digit_text(n)
    } else {
        decimal(n / 10) + digit_text(n % 10)
    }
}

fn digit_str(d: u64) -> (r: &'static str)
    requires
        d < 10,
    ensures
        r@ == digit_text(d as nat),
{
    if d == 0 {
        "0"
    } else if d == 1 {
        "1"
    } else if d == 2 {
        "2"
    } else if d == 3 {
        "3"
    } else if d == 4 {
        "4"
    } else if d == 5 {
        "5"
    } else if d == 6 {
        "6"
    } else if d == 7 {
        "7"
    } else if d == 8 {
        "8"
    } else {
        "9"
    }
}

/// Renders `n` in decimal.
pub fn dec(n: u64) -> (r: String)
    ensures
        r@ == decimal(n as nat),
    decreases n,
{
    if n < 10 {
        digit_str(n).to_owned()
    } else {
        let mut r: String = dec(n / 10);
        r.append(digit_str(n % 10));
        r
    }
}

/// Renders a `usize` in decimal.
pub fn dec_usize(n: usize) -> (r: String)
    ensures
        r@ == decimal(n as nat),
{
    dec(n as u64)
}

/// The decimal text of an integer, with a minus sign where it is negative.
pub open spec fn signed_decimal(n: int) -> Seq<char> {
    if n < 0 {
        "-"@ + decimal((-n) as nat)
    } else {
        decimal(n as nat)
    }
}

/// The remainder of division towards zero.
pub open spec fn truncated_rem(n: int, d: int) -> int {
    if n < 0 {
        -((-n) % d)
    } else {
        n % d
    }
}

/// Renders the remainder of `n` by `d` in decimal.
pub fn dec_rem(n: i64, d: u64) -> (r: String)
    requires
        d > 0,
    ensures
        r@ == signed_decimal(truncated_rem(n as int, d as int)),
{
    if n < 0 {
        let m: u64 = ((-(n as i128)) as u64) % d;
        if m == 0 {
            dec(m)
        } else {
            cat2("-", dec(m).as_str())
        }
    } else {
        dec((n as u64) % d)
    }
}

/// Renders an integer in decimal.
pub fn dec_signed(n: i64) -> (r: String)
    ensures
        r@ == signed_decimal(n as int),
{
    if n < 0 {
        let m: u64 = (-(n as i128)) as u64;
        cat2("-", dec(m).as_str())
    } else {
        dec(n as u64)
    }
}

/// Reads a decimal number without leading zeros that fits.
pub fn parse_dec(s: &str) -> (r: Option<u64>)
    ensures
        r matches Some(n) ==> s@ == decimal(n as nat),
        r is None ==> forall|n: u64| #![trigger decimal(n as nat)] s@ != decimal(n as nat),
{
    let cs = chars_of(s);
    let mut n: u64 = 0;
    let mut i: usize = 0;
    while i < cs.len()
        invariant
            i <= cs.len(),
            cs@ == s@,
            i == 0 ==> n == 0,
            i > 0 ==> s@.take(i as int) == decimal(n as nat),
        decreases cs.len() - i,
    {
        let d: u32 = cs[i] as u32;
        proof {
            char_is_scalar(cs@[i as int]);
            char_u32_cast(cs@[i as int], d);
        }
        let ghost head = s@.take(i as int);
        let ghost next = s@.take(i + 1);
        proof {
            assert(next =~= head.push(s@[i as int]));
        }
        if d < 48 || d > 57 || (i > 0 && n == 0) || n > 1844674407370955161 || (n == 1844674407370955161 && d > 53) {
            proof {
                assert forall|m: u64| s@ != #[trigger] decimal(m as nat) by {
                    if s@ == decimal(m as nat) {
                        lemma_decimal_prefix(m as nat, i as int);
                        let k = decimal_prefix(m as nat, (s@.len() - (i + 1)) as nat);
                        assert(next == decimal(k));
                        lemma_decimal_last(k);
                        if i > 0 {
                            assert(next.drop_last() =~= head);
                            lemma_decimal_len(k);
                            assert(k >= 10);
                            lemma_digit_text(k % 10);
                            assert(decimal(k) == decimal(k / 10) + digit_text(k % 10));
                            assert(decimal(k / 10) =~= decimal(k).drop_last());
                            decimal_injective(k / 10, n as nat);
                            lemma_decimal_prefix_le(m as nat, (s@.len() - (i + 1)) as nat);
                        }
                    }
                }
            }
            return None;
        }
        let old_n: u64 = n;
        n = n * 10 + (d - 48) as u64;
        proof {
            lemma_digit_text((d - 48) as nat);
            assert(digit_text((d - 48) as nat)[0] == s@[i as int]);
            assert(digit_text((d - 48) as nat) =~= seq![s@[i as int]]);
            if i == 0 {
                assert(next =~= digit_text(n as nat));
                assert(decimal(n as nat) == digit_text(n as nat));
            } else {
                assert(n / 10 == old_n && n % 10 == d - 48);
                assert(next =~= head + digit_text((d - 48) as nat));
            }
        }
        i = i + 1;
    }
    if i == 0 {
        proof {
            assert forall|m: u64| s@ != #[trigger] decimal(m as nat) by {
                lemma_decimal_len(m as nat);
            }
        }
        None
    } else {
        proof {
            assert(s@.take(i as int) =~= s@);
        }
        Some(n)
    }
}

/// `n` without its last `k` digits.
spec fn decimal_prefix(n: nat, k: nat) -> nat
    decreases k,
{
    if k == 0 {
        n
    } else {
        decimal_prefix(n / 10, (k - 1) as nat)
    }
}

proof fn lemma_decimal_prefix_le(n: nat, k: nat)
    ensures
        decimal_prefix(n, k) <= n,
    decreases k,
{
    if k > 0 {
        lemma_decimal_prefix_le(n / 10, (k - 1) as nat);
    }
}

/// A beginning of a decimal text is the decimal text of the number without its last digits.
proof fn lemma_decimal_prefix(n: nat, i: int)
    requires
        0 <= i < decimal(n).len(),
    ensures
        decimal(n).take(i + 1) == decimal(decimal_prefix(n, (decimal(n).len() - (i + 1)) as nat)),
    decreases n,
{
    let s = decimal(n);
    if i + 1 == s.len() {
        assert(s.take(i + 1) =~= s);
    } else {
        if n < 10 {
            lemma_digit_text(n);
        }
        lemma_digit_text(n % 10);
        assert(s.take(i + 1) =~= decimal(n / 10).take(i + 1));
        lemma_decimal_prefix(n / 10, i);
    }
}

proof fn lemma_decimal_last(n: nat)
    ensures
        decimal(n).len() >= 1,
        decimal(n).last() as int == 48 + n % 10,
        n < 10 ==> decimal(n).len() == 1,
{
    lemma_digit_text(n % 10);
    if n < 10 {
        lemma_digit_text(n);
    }
}

proof fn lemma_digit_text(d: nat)
    requires
        d < 10,
    ensures
        digit_text(d).len() == 1,
        digit_text(d)[0] as int == 48 + d,
{
    reveal_strlit("0");
    reveal_strlit("1");
    reveal_strlit("2");
    reveal_strlit("3");
    reveal_strlit("4");
    reveal_strlit("5");
    reveal_strlit("6");
    reveal_strlit("7");
    reveal_strlit("8");
    reveal_strlit("9");
}

/// A decimal text holds digits only.
pub proof fn decimal_digits(n: nat)
    ensures
        forall|i: int| 0 <= i < decimal(n).len() ==> 48 <= (#[trigger] decimal(n)[i]) as int <= 57,
    decreases n,
{
    if n < 10 {
        lemma_digit_text(n);
    } else {
        decimal_digits(n / 10);
        lemma_digit_text(n % 10);
        assert forall|i: int| 0 <= i < decimal(n).len() implies 48 <= (#[trigger] decimal(n)[i]) as int <= 57 by {
            if i < decimal(n / 10).len() {
                assert(decimal(n)[i] == decimal(n / 10)[i]);
            }
        }
    }
}

/// A name with a number behind it.
pub open spec fn numbered(prefix: Seq<char>, n: nat) -> Seq<char> {
    prefix + "_"@ + decimal(n)
}

/// Names with different numbers behind them differ, whatever stands before.
pub proof fn numbered_differ(p: Seq<char>, m: nat, q: Seq<char>, n: nat)
    requires
        m != n,
    ensures
        numbered(p, m) != numbered(q, n),
{
    reveal_strlit("_");
    decimal_digits(m);
    decimal_digits(n);
    let a = decimal(m);
    let b = decimal(n);
    let s = numbered(p, m);
    let t = numbered(q, n);
    if s == t {
        assert(s.len() == p.len() + 1 + a.len());
        assert(t.len() == q.len() + 1 + b.len());
        assert(s[p.len() as int] == '_');
        assert(t[q.len() as int] == '_');
        if a.len() < b.len() {
            assert(t[p.len() as int] == b[p.len() - q.len() - 1]);
        } else if b.len() < a.len() {
            assert(s[q.len() as int] == a[q.len() - p.len() - 1]);
        } else {
            assert forall|i: int| 0 <= i < a.len() implies a[i] == b[i] by {
                assert(s[p.len() + 1 + i] == a[i]);
                assert(t[q.len() + 1 + i] == b[i]);
            }
            assert(a =~= b);
            decimal_injective(m, n);
        }
    }
}

/// Two numbers with the same decimal text are equal.
pub proof fn decimal_injective(a: nat, b: nat)
    requires
        decimal(a) == decimal(b),
    ensures
        a == b,
    decreases a,
{
    lemma_decimal_len(a);
    lemma_decimal_len(b);
    lemma_digit_text(a % 10);
    lemma_digit_text(b % 10);
    if a < 10 {
        lemma_digit_text(a);
    }
    if b < 10 {
        lemma_digit_text(b);
    }
    assert(a >= 10 ==> decimal(a).last() == digit_text(a % 10)[0]);
    assert(b >= 10 ==> decimal(b).last() == digit_text(b % 10)[0]);
    if a >= 10 && b >= 10 {
        assert(decimal(a).drop_last() =~= decimal(a / 10));
        assert(decimal(b).drop_last() =~= decimal(b / 10));
        decimal_injective(a / 10, b / 10);
    }
}

proof fn lemma_decimal_len(n: nat)
    ensures
        decimal(n).len() >= 1,
        n >= 10 ==> decimal(n).len() >= 2,
    decreases n,
{
    if n < 10 {
        lemma_digit_text(n);
    } else {
        lemma_decimal_len(n / 10);
        lemma_digit_text(n % 10);
    }
}

/// Whether two texts hold the same characters.
pub fn same(a: &str, b: &str) -> (r: bool)
    ensures
        r == (a@ == b@),
{
    let x = a.as_bytes();
    let y = b.as_bytes();
    proof {
        encode_utf8_decode_utf8(a@);
        encode_utf8_decode_utf8(b@);
    }
    if x.len() != y.len() {
        return false;
    }
    let mut i: usize = 0;
    while i < x.len()
        invariant
            i <= x.len(),
            x.len() == y.len(),
            x@ == encode_utf8(a@),
            y@ == encode_utf8(b@),
            forall|j: int| 0 <= j < i ==> x@[j] == y@[j],
        decreases x.len() - i,
    {
        if x[i] != y[i] {
            return false;
        }
        i = i + 1;
    }
    assert(x@ =~= y@);
    true
}

/// Whether a list of texts holds `s`.
pub open spec fn holds_text(v: Seq<String>, s: Seq<char>) -> bool {
    exists|i: int| 0 <= i < v.len() && (#[trigger] v[i])@ == s
}

/// Whether `v` holds `s`.
pub fn contains(v: &Vec<String>, s: &str) -> (r: bool)
    ensures
        r == holds_text(v@, s@),
{
    let mut i: usize = 0;
    while i < v.len()
        invariant
            i <= v.len(),
            forall|j: int| 0 <= j < i ==> (#[trigger] v@[j])@ != s@,
        decreases v.len() - i,
    {
        if same(v[i].as_str(), s) {
            return true;
        }
        i = i + 1;
    }
    false
}

/// The characters of `s`.
pub fn chars_of(s: &str) -> (r: Vec<char>)
    ensures
        r@ == s@,
{
    let mut r: Vec<char> = Vec::new();
    for c in it: s.chars()
        invariant
            r@ == it.seq().take(it.index() as int),
            it.seq() == s@,
    {
        r.push(c);
    }
    assert(r@ =~= s@);
    r
}

/// The text made of `v[from..to]`.
pub fn text_of(v: &Vec<char>, from: usize, to: usize) -> (r: String)
    requires
        from <= to <= v.len(),
    ensures
        r@ == v@.subrange(from as int, to as int),
{
    let mut r: String = String::new();
    let mut i: usize = from;
    while i < to
        invariant
            from <= i <= to <= v.len(),
            r@ == v@.subrange(from as int, i as int),
        decreases to - i,
    {
        r.push(v[i]);
        proof {
            assert(v@.subrange(from as int, i + 1) =~= v@.subrange(from as int, i as int).push(v@[i as int]));
        }
        i = i + 1;
    }
    r
}

/// The views of a list of texts.
pub open spec fn views(v: Seq<String>) -> Seq<Seq<char>> {
    Seq::new(v.len(), |i: int| v[i]@)
}

/// A copy of a list of texts.
pub fn clone_list(v: &Vec<String>) -> (r: Vec<String>)
    ensures
        r@ == v@,
{
    let mut r: Vec<String> = Vec::new();
    let mut i: usize = 0;
    while i < v.len()
        invariant
            i <= v.len(),
            r@ == v@.take(i as int),
        decreases v.len() - i,
    {
        r.push(v[i].clone());
        proof {
            assert(v@.take(i + 1) =~= v@.take(i as int).push(v@[i as int]));
        }
        i = i + 1;
    }
    assert(v@.take(v@.len() as int) =~= v@);
    r
}

/// A copy of an optional text.
pub fn clone_opt(s: &Option<String>) -> (r: Option<String>)
    ensures
        r == *s,
{
    match s {
        Some(t) => Some(t.clone()),
        None => None,
    }
}

/// The pieces of `s` between occurrences of `sep`, in order; one more piece than there
/// are separators.
pub open spec fn pieces(s: Seq<char>, sep: char) -> Seq<Seq<char>>
    decreases s.len(),
{
    if s.len() == 0 {
        seq![s]
    } else {
        let rest = pieces(s.drop_last(), sep);
        if s.last() == sep {
            rest.push(Seq::<char>::empty())
        } else {
            rest.update(rest.len() - 1, rest.last().push(s.last()))
        }
    }
}

/// There is always at least one piece.
pub proof fn lemma_pieces_nonempty(s: Seq<char>, sep: char)
    ensures
        pieces(s, sep).len() >= 1,
    decreases s.len(),
{
    if s.len() > 0 {
        lemma_pieces_nonempty(s.drop_last(), sep);
    }
}

/// Splits `s` at every `sep`.
pub fn split(s: &str, sep: char) -> (r: Vec<String>)
    ensures
        views(r@) == pieces(s@, sep),
{
    let cs = chars_of(s);
    let mut r: Vec<String> = Vec::new();
    let mut cur: String = String::new();
    let mut i: usize = 0;
    proof {
        assert(s@.take(0) =~= Seq::<char>::empty());
        assert(views(r@).push(cur@) =~= pieces(s@.take(0), sep));
    }
    while i < cs.len()
        invariant
            i <= cs.len(),
            cs@ == s@,
            views(r@).push(cur@) == pieces(s@.take(i as int), sep),
        decreases cs.len() - i,
    {
        let ghost before = views(r@).push(cur@);
        proof {
            assert(s@.take(i + 1).drop_last() =~= s@.take(i as int));
        }
        if cs[i] == sep {
            r.push(cur);
            cur = String::new();
            proof {
                assert(views(r@).push(cur@) =~= before.push(Seq::<char>::empty()));
            }
        } else {
            cur.push(cs[i]);
            proof {
                assert(views(r@).push(cur@) =~= before.update(before.len() - 1, before.last().push(s@[i as int])));
            }
        }
        i = i + 1;
    }
    proof {
        assert(s@.take(i as int) =~= s@);
    }
    let ghost before = views(r@).push(cur@);
    r.push(cur);
    proof {
        assert(views(r@) =~= before);
    }
    r
}

/// The texts of `v` joined with `sep` between neighbours.
pub open spec fn joined(v: Seq<Seq<char>>, sep: Seq<char>) -> Seq<char>
    decreases v.len(),
{
    if v.len() == 0 {
        Seq::empty()
    } else if v.len() == 1 {
        v[0]
    } else {
        joined(v.drop_last(), sep) + sep + v.last()
    }
}

/// Joins the texts of `v` with `sep` between neighbours.
pub fn join(v: &Vec<String>, sep: &str) -> (r: String)
    ensures
        r@ == joined(views(v@), sep@),
{
    let mut r: String = String::new();
    let mut i: usize = 0;
    proof {
        assert(views(v@).take(0) =~= Seq::<Seq<char>>::empty());
    }
    while i < v.len()
        invariant
            i <= v.len(),
            r@ == joined(views(v@).take(i as int), sep@),
        decreases v.len() - i,
    {
        let ghost vs = views(v@);
        proof {
            assert(vs.take(i + 1).drop_last() =~= vs.take(i as int));
        }
        if i > 0 {
            r.append(sep);
        }
        r.append(v[i].as_str());
        proof {
            assert(r@ =~= joined(vs.take(i + 1), sep@));
        }
        i = i + 1;
    }
    proof {
        assert(views(v@).take(i as int) =~= views(v@));
    }
    r
}

/// Whether `s` begins with `prefix`.
pub open spec fn begins_with(s: Seq<char>, prefix: Seq<char>) -> bool {
    prefix.len() <= s.len() && s.take(prefix.len() as int) == prefix
}

/// What follows `prefix` in `s`, where `s` begins with it.
pub fn strip_prefix(s: &str, prefix: &str) -> (r: Option<String>)
    ensures
        r is Some <==> begins_with(s@, prefix@),
        r matches Some(t) ==> t@ == s@.skip(prefix@.len() as int),
{
    let cs = chars_of(s);
    let ps = chars_of(prefix);
    if ps.len() > cs.len() {
        return None;
    }
    let mut i: usize = 0;
    while i < ps.len()
        invariant
            i <= ps.len() <= cs.len(),
            cs@ == s@,
            ps@ == prefix@,
            forall|j: int| 0 <= j < i ==> cs@[j] == ps@[j],
        decreases ps.len() - i,
    {
        if cs[i] != ps[i] {
            proof {
                assert(s@.take(prefix@.len() as int)[i as int] == s@[i as int]);
            }
            return None;
        }
        i = i + 1;
    }
    proof {
        assert(s@.take(prefix@.len() as int) =~= prefix@);
        assert(s@.skip(prefix@.len() as int) =~= s@.subrange(prefix@.len() as int, s@.len() as int));
    }
    Some(text_of(&cs, ps.len(), cs.len()))
}

/// Whether `s` begins with `prefix`.
pub fn starts_with(s: &str, prefix: &str) -> (r: bool)
    ensures
        r == begins_with(s@, prefix@),
{
    strip_prefix(s, prefix).is_some()
}

/// Whether `part` occurs in `s`.
pub open spec fn occurs(s: Seq<char>, part: Seq<char>) -> bool {
    exists|i: int| #[trigger] occurs_at(s, part, i)
}

/// Whether `part` occurs in `s` at `i`.
pub open spec fn occurs_at(s: Seq<char>, part: Seq<char>, i: int) -> bool {
    0 <= i && i + part.len() <= s.len() && s.subrange(i, i + part.len()) == part
}

/// Whether `part` occurs in `s`.
pub fn contains_text(s: &str, part: &str) -> (r: bool)
    ensures
        r == occurs(s@, part@),
{
    let cs = chars_of(s);
    let ps = chars_of(part);
    if ps.len() > cs.len() {
        return false;
    }
    let last: usize = cs.len() - ps.len();
    let mut i: usize = 0;
    loop
        invariant
            cs@ == s@,
            ps@ == part@,
            i <= last,
            last + ps.len() == cs.len(),
            forall|k: int| 0 <= k < i ==> !#[trigger] occurs_at(s@, part@, k),
        decreases last - i,
    {
        let mut j: usize = 0;
        while j < ps.len() && cs[i + j] == ps[j]
            invariant
                cs@ == s@,
                ps@ == part@,
                i <= last,
                last + ps.len() == cs.len(),
                j <= ps.len(),
                forall|k: int| 0 <= k < j ==> cs@[i + k] == ps@[k],
            decreases ps.len() - j,
        {
            j = j + 1;
        }
        if j == ps.len() {
            proof {
                assert(s@.subrange(i as int, i + part@.len()) =~= part@);
                assert(occurs_at(s@, part@, i as int));
            }
            return true;
        }
        proof {
            assert(s@.subrange(i as int, i + part@.len())[j as int] == s@[i + j]);
            assert(!occurs_at(s@, part@, i as int));
        }
        if i == last {
            return false;
        }
        i = i + 1;
    }
}

/// Whether `s` contains the character `c`.
pub fn has_char(s: &str, c: char) -> (r: bool)
    ensures
        r == s@.contains(c),
{
    let cs = chars_of(s);
    let mut i: usize = 0;
    while i < cs.len()
        invariant
            i <= cs.len(),
            cs@ == s@,
            forall|j: int| 0 <= j < i ==> cs@[j] != c,
        decreases cs.len() - i,
    {
        if cs[i] == c {
            assert(s@[i as int] == c);
            return true;
        }
        i = i + 1;
    }
    false
}

/// How many bytes a text takes.
pub open spec fn byte_count(s: Seq<char>) -> nat {
    encode_utf8(s).len()
}

/// How many bytes a text takes.
pub fn byte_len(s: &str) -> (r: usize)
    ensures
        r == byte_count(s@),
{
    s.as_bytes().len()
}

/// A text without the separator is one piece.
pub proof fn plain_text_is_one_piece(s: Seq<char>, sep: char)
    requires
        !s.contains(sep),
    ensures
        pieces(s, sep) == seq![s],
    decreases s.len(),
{
    if s.len() > 0 {
        assert forall|c: char| s.drop_last().contains(c) implies s.contains(c) by {
            let i = s.drop_last().index_of(c);
            assert(s[i] == c);
        }
        plain_text_is_one_piece(s.drop_last(), sep);
        assert(s.contains(s.last()));
        assert(pieces(s, sep) =~= seq![s.drop_last().push(s.last())]);
        assert(s.drop_last().push(s.last()) =~= s);
    }
}

/// A separator parts a text into the pieces before it and the pieces behind it.
pub proof fn separator_parts_the_pieces(a: Seq<char>, b: Seq<char>, sep: char)
    ensures
        pieces(a + seq![sep] + b, sep) == pieces(a, sep) + pieces(b, sep),
    decreases b.len(),
{
    let s = a + seq![sep] + b;
    lemma_pieces_nonempty(b, sep);
    if b.len() == 0 {
        assert(b =~= Seq::<char>::empty());
        assert(s.drop_last() =~= a);
        assert(s.last() == sep);
        assert(pieces(s, sep) =~= pieces(a, sep) + seq![b]);
    } else {
        let c = b.drop_last();
        separator_parts_the_pieces(a, c, sep);
        lemma_pieces_nonempty(c, sep);
        assert(s.drop_last() =~= a + seq![sep] + c);
        assert(s.last() == b.last());
        assert(pieces(s, sep) =~= pieces(a, sep) + pieces(b, sep));
    }
}

/// The number that a text of decimal digits says.
pub open spec fn number_said(s: Seq<char>) -> int
    decreases s.len(),
{
    if s.len() == 0 {
        0
    } else {
        10 * number_said(s.drop_last()) + (s.last() as int - '0' as int)
    }
}

/// Whether a text says a number as it is written: in digits, without zeros in front.
pub open spec fn says_number(s: Seq<char>, n: int) -> bool {
    &&& s.len() >= 1
    &&& forall|i: int| 0 <= i < s.len() ==> '0' <= #[trigger] s[i] <= '9'
    &&& s.len() > 1 ==> s[0] != '0'
    &&& number_said(s) == n
}

proof fn lemma_decimal_says(n: nat)
    ensures
        says_number(decimal(n), n as int),
        n > 0 ==> decimal(n)[0] != '0',
    decreases n,
{
    let s = decimal(n);
    if n < 10 {
        lemma_digit_text(n);
        assert(s.drop_last() =~= Seq::<char>::empty());
        reveal_with_fuel(number_said, 2);
    } else {
        let rest = decimal(n / 10);
        lemma_decimal_says(n / 10);
        lemma_digit_text(n % 10);
        assert(s.drop_last() =~= rest);
        assert(s.last() as int == 48 + n % 10);
        assert forall|i: int| 0 <= i < s.len() implies '0' <= #[trigger] s[i] <= '9' by {
            if i < rest.len() {
                assert(s[i] == rest[i]);
            }
        }
        assert(s[0] == rest[0]);
    }
}

/// A number is written in decimal digits, without zeros in front and with a minus sign before a
/// negative one, and what was written is read back.
pub proof fn numbers_are_written(n: u64, m: usize, k: i64, rn: String, rm: String, rk: String, text: &str, back: Option<u64>)
    requires
        call_ensures(dec, (n,), rn),
        call_ensures(dec_usize, (m,), rm),
        call_ensures(dec_signed, (k,), rk),
        call_ensures(parse_dec, (text,), back),
    ensures
        says_number(rn@, n as int),
        says_number(rm@, m as int),
        k >= 0 ==> says_number(rk@, k as int),
        k < 0 ==> rk@.len() > 1 && rk@[0] == '-' && says_number(rk@.skip(1), -k),
        text@ == rn@ ==> back == Some(n),
        back matches Some(x) ==> says_number(text@, x as int),
{
    lemma_decimal_says(n as nat);
    lemma_decimal_says(m as nat);
    if k >= 0 {
        lemma_decimal_says(k as nat);
    } else {
        lemma_decimal_says((-k) as nat);
        reveal_strlit("-");
        assert(rk@.skip(1) =~= decimal((-k) as nat));
    }
    match back {
        Some(x) => {
            lemma_decimal_says(x as nat);
            if text@ == rn@ {
                decimal_injective(x as nat, n as nat);
            }
        },
        None => {
            assert(text@ != decimal(n as nat));
        },
    }
}

/// A remainder has the sign of what was divided.
pub proof fn remainders_are_written(n: i64, d: u64, r: String)
    requires
        d > 0,
        call_ensures(dec_rem, (n, d), r),
    ensures
        n >= 0 ==> says_number(r@, n as int % d as int),
        n < 0 && (-n) % d as int == 0 ==> says_number(r@, 0),
        n < 0 && (-n) % d as int != 0 ==> r@.len() > 1 && r@[0] == '-' && says_number(r@.skip(1), (-n) % d as int),
{
    if n >= 0 {
        assert(n as int % d as int >= 0) by (nonlinear_arith)
            requires
                n >= 0,
                d > 0,
        ;
        lemma_decimal_says((n as int % d as int) as nat);
    } else {
        let m = (-n) % d as int;
        assert(m >= 0) by (nonlinear_arith)
            requires
                m == (-n) % d as int,
                d > 0,
        ;
        lemma_decimal_says(m as nat);
        if m != 0 {
            reveal_strlit("-");
            assert(r@.skip(1) =~= decimal(m as nat));
        }
    }
}

/// Joined texts stand one behind the other, with the separator between neighbours and nowhere
/// else.
pub proof fn texts_are_joined(v: &Vec<String>, w: &Vec<String>, sep: &str, rv: String, rw: String)
    requires
        call_ensures(join, (v, sep), rv),
        call_ensures(join, (w, sep), rw),
    ensures
        v@.len() == 0 ==> rv@.len() == 0,
        v@.len() == 1 ==> rv@ == v@[0]@,
        v@.len() >= 1 && w@.len() == v@.len() + 1 && w@.drop_last() == v@ ==> rw@ == rv@ + sep@ + w@.last()@,
{
    if v@.len() >= 1 && w@.len() == v@.len() + 1 && w@.drop_last() == v@ {
        assert(views(w@).drop_last() =~= views(v@));
    }
}

/// A text is split at every separator: no piece holds one, and the pieces joined by it are the
/// text again.
pub proof fn text_is_split(s: &str, sep: char, r: Vec<String>)
    requires
        call_ensures(split, (s, sep), r),
    ensures
        r@.len() >= 1,
        forall|i: int| 0 <= i < r@.len() ==> !(#[trigger] r@[i])@.contains(sep),
        joined(views(r@), seq![sep]) == s@,
{
    lemma_pieces_nonempty(s@, sep);
    lemma_split_and_join(s@, sep);
    assert forall|i: int| 0 <= i < r@.len() implies !(#[trigger] r@[i])@.contains(sep) by {
        assert(views(r@)[i] == r@[i]@);
    }
}

proof fn lemma_split_and_join(s: Seq<char>, sep: char)
    ensures
        joined(pieces(s, sep), seq![sep]) == s,
        forall|i: int| 0 <= i < pieces(s, sep).len() ==> !(#[trigger] pieces(s, sep)[i]).contains(sep),
    decreases s.len(),
{
    let p = pieces(s, sep);
    if s.len() > 0 {
        let rest = pieces(s.drop_last(), sep);
        lemma_pieces_nonempty(s.drop_last(), sep);
        lemma_split_and_join(s.drop_last(), sep);
        if s.last() == sep {
            assert(p.drop_last() =~= rest);
            assert(joined(p, seq![sep]) =~= s);
        } else {
            let last = rest.last();
            assert(p.last() == last.push(s.last()));
            assert(p.drop_last() =~= rest.drop_last());
            if rest.len() > 1 {
                assert(joined(rest, seq![sep]) == joined(rest.drop_last(), seq![sep]) + seq![sep] + last);
                assert(joined(p, seq![sep]) == joined(rest.drop_last(), seq![sep]) + seq![sep] + last.push(s.last()));
                assert(joined(p, seq![sep]) =~= joined(rest, seq![sep]).push(s.last()));
            } else {
                assert(p[0] == p.last() && rest[0] == last);
                assert(joined(p, seq![sep]) =~= joined(rest, seq![sep]).push(s.last()));
            }
            assert(s.drop_last().push(s.last()) =~= s);
            assert(!rest[rest.len() - 1].contains(sep));
            assert forall|i: int| 0 <= i < p.len() implies !(#[trigger] p[i]).contains(sep) by {
                if i < p.len() - 1 {
                    assert(p[i] == rest[i]);
                } else if p[i].contains(sep) {
                    let k = choose|k: int| 0 <= k < p[i].len() && p[i][k] == sep;
                    assert(k < last.len());
                    assert(last[k] == sep);
                }
            }
        }
    }
}

/// What occurs in a part of a text occurs in the text.
pub proof fn lemma_occurs_in(before: Seq<char>, s: Seq<char>, behind: Seq<char>, part: Seq<char>)
    requires
        occurs(s, part),
    ensures
        occurs(before + s + behind, part),
{
    let i = choose|i: int| #[trigger] occurs_at(s, part, i);
    assert((before + s + behind).subrange(before.len() + i, before.len() + i + part.len()) =~= part) by {
        assert(s.subrange(i, i + part.len()) == part);
        assert forall|k: int| 0 <= k < part.len() implies (before + s + behind)[before.len() + i + k] == part[k] by {
            assert(s.subrange(i, i + part.len())[k] == part[k]);
        }
    }
    assert(occurs_at(before + s + behind, part, before.len() + i));
}

/// A text occurs in itself, whatever stands around it.
pub proof fn lemma_occurs_between(before: Seq<char>, part: Seq<char>, behind: Seq<char>)
    ensures
        occurs(before + part + behind, part),
{
    assert(part.subrange(0, 0 + part.len() as int) =~= part);
    assert(occurs_at(part, part, 0));
    lemma_occurs_in(before, part, behind, part);
}

/// A number below 100 has one or two digits.
pub proof fn lemma_short_decimal(n: nat)
    requires
        n < 100,
    ensures
        n < 10 ==> decimal(n).len() == 1,
        n >= 10 ==> decimal(n).len() == 2,
        says_number(decimal(n), n as int),
{
    lemma_decimal_says(n);
    if n < 10 {
        lemma_digit_text(n);
    } else {
        lemma_digit_text(n / 10);
        lemma_digit_text(n % 10);
        reveal_with_fuel(decimal, 2);
        assert(decimal(n / 10) == digit_text(n / 10));
    }
}

} // verus!
