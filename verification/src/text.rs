//! Small verified string utilities: equality, concatenation, character access.
use vstd::prelude::*;
use vstd::string::*;

verus! {

/// Whether two strings hold the same characters.
pub fn text_eq(a: &str, b: &str) -> (r: bool)
    ensures
        r == (a@ == b@),
{
    let x = a.to_string();
    let y = b.to_string();
    x == y
}

/// A fresh `String` holding the characters of `a`.
pub fn owned(a: &str) -> (r: String)
    ensures
        r@ == a@,
{
    a.to_string()
}

/// `a` followed by `b`.
pub fn cat(a: &str, b: &str) -> (r: String)
    ensures
        r@ == a@ + b@,
{
    let mut s = a.to_string();
    s.append(b);
    s
}

/// `a`, `b` and `c` one after another.
pub fn cat3(a: &str, b: &str, c: &str) -> (r: String)
    ensures
        r@ == a@ + b@ + c@,
{
    let mut s = a.to_string();
    s.append(b);
    s.append(c);
    s
}

/// The characters of a string, one per element.
pub fn chars_of(s: &str) -> (r: Vec<char>)
    ensures
        r@ == s@,
{
    let n = s.unicode_len();
    let mut v: Vec<char> = Vec::new();
    let mut i: usize = 0;
    while i < n
        invariant
            n == s@.len(),
            i <= n,
            v@ == s@.subrange(0, i as int),
        decreases n - i,
    {
        let c = s.get_char(i);
        v.push(c);
        i = i + 1;
        assert(v@ =~= s@.subrange(0, i as int));
    }
    assert(v@ =~= s@);
    v
}

/// The string made of the given characters.
pub fn string_of(v: &[char]) -> (r: String)
    ensures
        r@ == v@,
{
    let mut s = String::new();
    let mut i: usize = 0;
    while i < v.len()
        invariant
            i <= v.len(),
            s@ == v@.subrange(0, i as int),
        decreases v.len() - i,
    {
        let one = char_string(v[i]);
        s.append(one.as_str());
        i = i + 1;
        assert(s@ =~= v@.subrange(0, i as int));
    }
    assert(s@ =~= v@);
    s
}

/// The one-character string holding `c` (`char::to_string`).
#[verifier::external_body]
fn char_string(c: char) -> (r: String)
    ensures
        r@ == seq![c],
{
    c.to_string()
}


/// The decimal digit for `d < 10`.
pub open spec fn digit_char(d: nat) -> char {
    if d == 0 { '0' }
    else if d == 1 { '1' }
    else if d == 2 { '2' }
    else if d == 3 { '3' }
    else if d == 4 { '4' }
    else if d == 5 { '5' }
    else if d == 6 { '6' }
    else if d == 7 { '7' }
    else if d == 8 { '8' }
    else { '9' }
}

/// The decimal notation of `n`, without leading zeros.
pub open spec fn decimal_text(n: nat) -> Seq<char>
    decreases n,
{
    if n < 10 {
        seq![digit_char(n)]
    } else {
        decimal_text(n / 10).push(digit_char(n % 10))
    }
}

/// The number a run of decimal digits stands for.
pub open spec fn decimal_value(s: Seq<char>) -> int
    decreases s.len(),
{
    if s.len() == 0 {
        0
    } else {
        decimal_value(s.drop_last()) * 10 + (s.last() as int - '0' as int)
    }
}

proof fn lemma_digit_char_value(d: nat)
    requires
        d < 10,
    ensures
        '0' <= digit_char(d) <= '9',
        digit_char(d) as int - '0' as int == d,
{
}

/// The decimal notation of `n` is a non-empty run of digits `'0'`..`'9'`
/// that stands for `n`, with no leading zero unless `n` is zero.
pub proof fn lemma_decimal_law(n: nat)
    ensures
        decimal_text(n).len() >= 1,
        forall|k: int| 0 <= k < decimal_text(n).len() ==> '0' <= #[trigger] decimal_text(n)[k] <= '9',
        decimal_value(decimal_text(n)) == n,
        decimal_text(n)[0] == '0' ==> n == 0,
    decreases n,
{
    lemma_digit_char_value((n % 10) as nat);
    if n < 10 {
        let d = decimal_text(n);
        assert(d.drop_last() =~= Seq::<char>::empty());
        assert(decimal_value(d) == decimal_value(d.drop_last()) * 10 + (d.last() as int - '0' as int));
    } else {
        let t = decimal_text(n / 10);
        lemma_decimal_law(n / 10);
        let d = decimal_text(n);
        assert(d == t.push(digit_char(n % 10)));
        assert(d.drop_last() =~= t);
        assert forall|k: int| 0 <= k < d.len() implies '0' <= #[trigger] d[k] <= '9' by {
            if k < t.len() {
                assert(d[k] == t[k]);
            }
        }
        assert(d[0] == t[0]);
    }
}

fn digit_of(d: u64) -> (c: char)
    requires
        d < 10,
    ensures
        c == digit_char(d as nat),
{
    if d == 0 { '0' }
    else if d == 1 { '1' }
    else if d == 2 { '2' }
    else if d == 3 { '3' }
    else if d == 4 { '4' }
    else if d == 5 { '5' }
    else if d == 6 { '6' }
    else if d == 7 { '7' }
    else if d == 8 { '8' }
    else { '9' }
}

/// The decimal notation of `n`.
pub fn decimal(n: u64) -> (r: String)
    ensures
        r@ == decimal_text(n as nat),
    decreases n,
{
    if n < 10 {
        let c = digit_of(n);
        let v = vec![c];
        string_of(v.as_slice())
    } else {
        let mut s = decimal(n / 10);
        let c = digit_of(n % 10);
        let one = char_string(c);
        s.append(one.as_str());
        s
    }
}

/// `needle` occurs in `hay` at position `i`.
pub open spec fn occurs_at(hay: Seq<char>, needle: Seq<char>, i: int) -> bool {
    0 <= i && i + needle.len() <= hay.len() && hay.subrange(i, i + needle.len()) == needle
}

/// `needle` occurs somewhere in `hay`.
pub open spec fn has_infix(hay: Seq<char>, needle: Seq<char>) -> bool {
    exists|i: int| occurs_at(hay, needle, i)
}

/// The first position at or after `i` where `needle` occurs in `hay`.
pub open spec fn find_from(hay: Seq<char>, needle: Seq<char>, i: nat) -> Option<nat>
    decreases hay.len() - i,
{
    if i + needle.len() > hay.len() {
        None
    } else if hay.subrange(i as int, (i + needle.len()) as int) == needle {
        Some(i)
    } else if i >= hay.len() {
        None
    } else {
        find_from(hay, needle, i + 1)
    }
}

pub proof fn lemma_find_from(hay: Seq<char>, needle: Seq<char>, i: nat)
    ensures
        find_from(hay, needle, i) matches Some(j) ==> i <= j && occurs_at(hay, needle, j as int) && forall|k: int|
            i <= k < j ==> !occurs_at(hay, needle, k),
        find_from(hay, needle, i) is None ==> forall|k: int| i <= k ==> !occurs_at(hay, needle, k),
    decreases hay.len() - i,
{
    if i + needle.len() > hay.len() {
    } else if hay.subrange(i as int, (i + needle.len()) as int) == needle {
    } else if i >= hay.len() {
        assert forall|k: int| i <= k implies !occurs_at(hay, needle, k) by {
            if k == i {
                assert(hay.subrange(k, k + needle.len()) =~= hay.subrange(i as int, (i + needle.len()) as int));
            }
        }
    } else {
        lemma_find_from(hay, needle, i + 1);
    }
}

/// Whether `needle` occurs in `hay` (`str::contains`).
pub fn contains_text(hay: &str, needle: &str) -> (r: bool)
    ensures
        r == has_infix(hay@, needle@),
{
    let h = chars_of(hay);
    let n = chars_of(needle);
    match find_chars(&h, &n, 0) {
        Some(_) => {
            proof { lemma_find_from(hay@, needle@, 0); }
            true
        },
        None => {
            proof { lemma_find_from(hay@, needle@, 0); }
            false
        },
    }
}

/// Whether `needle` occurs in `hay` at position `i`.
fn matches_at(hay: &Vec<char>, needle: &Vec<char>, i: usize) -> (r: bool)
    requires
        i + needle.len() <= hay.len(),
    ensures
        r == (hay@.subrange(i as int, i + needle.len()) == needle@),
{
    let mut k: usize = 0;
    while k < needle.len()
        invariant
            i + needle.len() <= hay.len(),
            k <= needle.len(),
            forall|j: int| 0 <= j < k ==> hay@[i + j] == needle@[j],
        decreases needle.len() - k,
    {
        if hay[i + k] != needle[k] {
            assert(hay@.subrange(i as int, i + needle.len())[k as int] != needle@[k as int]);
            return false;
        }
        k = k + 1;
    }
    assert(hay@.subrange(i as int, i + needle.len()) =~= needle@);
    true
}

/// The first position at or after `start` where `needle` occurs in `hay`.
pub fn find_chars(hay: &Vec<char>, needle: &Vec<char>, start: usize) -> (r: Option<usize>)
    ensures
        r == (match find_from(hay@, needle@, start as nat) {
            Some(j) => Some(j as usize),
            None => None::<usize>,
        }),
    decreases hay.len() - start,
{
    if start > hay.len() || needle.len() > hay.len() - start {
        None
    } else if matches_at(hay, needle, start) {
        Some(start)
    } else if start >= hay.len() {
        None
    } else {
        find_chars(hay, needle, start + 1)
    }
}

/// The pieces of `s` between the occurrences of `sep`, found left to right
/// (`str::split` with a non-empty separator).
pub open spec fn split_text(s: Seq<char>, sep: Seq<char>) -> Seq<Seq<char>>
    recommends
        sep.len() > 0,
    decreases s.len(),
{
    match find_from(s, sep, 0) {
        Some(i) => if sep.len() > 0 && i + sep.len() <= s.len() {
            seq![s.subrange(0, i as int)] + split_text(s.subrange((i + sep.len()) as int, s.len() as int), sep)
        } else {
            seq![s]
        },
        None => seq![s],
    }
}

/// Split `s` on every occurrence of the non-empty `sep`.
pub fn split_on(s: &str, sep: &str) -> (r: Vec<String>)
    requires
        sep@.len() > 0,
    ensures
        r@.map_values(|x: String| x@) == split_text(s@, sep@),
{
    let h = chars_of(s);
    let n = chars_of(sep);
    split_chars(&h, &n)
}

fn split_chars(h: &Vec<char>, sep: &Vec<char>) -> (r: Vec<String>)
    requires
        sep.len() > 0,
    ensures
        r@.map_values(|x: String| x@) == split_text(h@, sep@),
    decreases h.len(),
{
    proof { lemma_find_from(h@, sep@, 0); }
    match find_chars(h, sep, 0) {
        None => {
            let mut r: Vec<String> = Vec::new();
            r.push(string_of(h.as_slice()));
            assert(r@.map_values(|x: String| x@) =~= seq![h@]);
            r
        },
        Some(i) => {
            let head = string_of(slice_chars(h, 0, i).as_slice());
            let tail = slice_chars(h, i + sep.len(), h.len());
            let rest = split_chars(&tail, sep);
            let ghost head_v = head@;
            let mut r: Vec<String> = Vec::new();
            r.push(head);
            let mut k: usize = 0;
            while k < rest.len()
                invariant
                    k <= rest.len(),
                    r.len() == k + 1,
                    r@[0]@ == head_v,
                    forall|j: int| 0 <= j < k ==> (#[trigger] r@[j + 1])@ == rest@[j]@,
                decreases rest.len() - k,
            {
                r.push(rest[k].clone());
                k = k + 1;
            }
            proof {
                let a = rest@.map_values(|x: String| x@);
                let want = seq![head_v] + a;
                assert forall|j: int| 0 <= j < r.len() implies r@.map_values(|x: String| x@)[j] == want[j] by {
                    if j > 0 {
                        assert(r@[(j - 1) + 1]@ == rest@[j - 1]@);
                    }
                }
                assert(r@.map_values(|x: String| x@) =~= want);
            }
            r
        },
    }
}

/// The characters of `v` from `from` up to `to`.
pub fn slice_chars(v: &Vec<char>, from: usize, to: usize) -> (r: Vec<char>)
    requires
        from <= to <= v.len(),
    ensures
        r@ == v@.subrange(from as int, to as int),
{
    let mut r: Vec<char> = Vec::new();
    let mut i: usize = from;
    while i < to
        invariant
            from <= i <= to <= v.len(),
            r@ == v@.subrange(from as int, i as int),
        decreases to - i,
    {
        r.push(v[i]);
        i = i + 1;
        assert(r@ =~= v@.subrange(from as int, i as int));
    }
    r
}

/// The characters that `char::is_whitespace` accepts (Unicode `White_Space`).
pub open spec fn is_space(c: char) -> bool {
    ||| c == ' ' || c == '\t' || c == '\n' || c == '\x0B' || c == '\x0C' || c == '\r'
    ||| c == '\u{85}' || c == '\u{A0}' || c == '\u{1680}'
    ||| ('\u{2000}' as u32 <= c as u32 && c as u32 <= '\u{200A}' as u32)
    ||| c == '\u{2028}' || c == '\u{2029}' || c == '\u{202F}' || c == '\u{205F}' || c == '\u{3000}'
}

fn space_char(c: char) -> (r: bool)
    ensures
        r == is_space(c),
{
    c == ' ' || c == '\t' || c == '\n' || c == '\x0B' || c == '\x0C' || c == '\r' || c == '\u{85}'
        || c == '\u{A0}' || c == '\u{1680}' || ('\u{2000}' <= c && c <= '\u{200A}') || c == '\u{2028}'
        || c == '\u{2029}' || c == '\u{202F}' || c == '\u{205F}' || c == '\u{3000}'
}

/// The number of leading whitespace characters of `s`.
pub open spec fn lead_spaces(s: Seq<char>) -> nat
    decreases s.len(),
{
    if s.len() > 0 && is_space(s[0]) {
        1 + lead_spaces(s.drop_first())
    } else {
        0
    }
}

/// The number of trailing whitespace characters of `s`.
pub open spec fn trail_spaces(s: Seq<char>) -> nat
    decreases s.len(),
{
    if s.len() > 0 && is_space(s.last()) {
        1 + trail_spaces(s.drop_last())
    } else {
        0
    }
}

/// `s` without its leading and trailing whitespace (`str::trim`).
pub open spec fn trim_text(s: Seq<char>) -> Seq<char> {
    let a = lead_spaces(s);
    let rest = s.subrange(a as int, s.len() as int);
    rest.subrange(0, rest.len() - trail_spaces(rest))
}

proof fn lemma_lead_bound(s: Seq<char>)
    ensures
        lead_spaces(s) <= s.len(),
    decreases s.len(),
{
    if s.len() > 0 && is_space(s[0]) {
        lemma_lead_bound(s.drop_first());
    }
}

proof fn lemma_trail_bound(s: Seq<char>)
    ensures
        trail_spaces(s) <= s.len(),
    decreases s.len(),
{
    if s.len() > 0 && is_space(s.last()) {
        lemma_trail_bound(s.drop_last());
    }
}

proof fn lemma_lead_spaces(s: Seq<char>)
    ensures
        lead_spaces(s) <= s.len(),
        forall|k: int| 0 <= k < lead_spaces(s) ==> is_space(#[trigger] s[k]),
        lead_spaces(s) < s.len() ==> !is_space(s[lead_spaces(s) as int]),
    decreases s.len(),
{
    if s.len() > 0 && is_space(s[0]) {
        let d = s.drop_first();
        lemma_lead_spaces(d);
        assert forall|k: int| 0 <= k < lead_spaces(s) implies is_space(#[trigger] s[k]) by {
            if k > 0 {
                assert(s[k] == d[k - 1]);
            }
        }
        if lead_spaces(s) < s.len() {
            assert(s[lead_spaces(s) as int] == d[lead_spaces(d) as int]);
        }
    }
}

proof fn lemma_trail_spaces(s: Seq<char>)
    ensures
        trail_spaces(s) <= s.len(),
        forall|k: int| s.len() - trail_spaces(s) <= k < s.len() ==> is_space(#[trigger] s[k]),
        trail_spaces(s) < s.len() ==> !is_space(s[s.len() - trail_spaces(s) - 1]),
    decreases s.len(),
{
    if s.len() > 0 && is_space(s.last()) {
        let d = s.drop_last();
        lemma_trail_spaces(d);
        assert forall|k: int| s.len() - trail_spaces(s) <= k < s.len() implies is_space(#[trigger] s[k]) by {
            if k < s.len() - 1 {
                assert(s[k] == d[k]);
            }
        }
        if trail_spaces(s) < s.len() {
            assert(s[s.len() - trail_spaces(s) - 1] == d[d.len() - trail_spaces(d) - 1]);
        }
    }
}

/// Trimming keeps a middle part of the text: what it drops at either end is
/// whitespace, and what it keeps neither starts nor ends with whitespace.
pub proof fn lemma_trim_law(s: Seq<char>)
    ensures
        ({
            let t = trim_text(s);
            let a = lead_spaces(s) as int;
            &&& a + t.len() <= s.len()
            &&& s.subrange(a, a + t.len()) == t
            &&& forall|k: int| 0 <= k < a ==> is_space(#[trigger] s[k])
            &&& forall|k: int| a + t.len() <= k < s.len() ==> is_space(#[trigger] s[k])
            &&& t.len() > 0 ==> !is_space(t[0]) && !is_space(t.last())
        }),
{
    lemma_lead_spaces(s);
    let a = lead_spaces(s) as int;
    let rest = s.subrange(a, s.len() as int);
    lemma_trail_spaces(rest);
    let t = trim_text(s);
    assert(t == rest.subrange(0, rest.len() - trail_spaces(rest)));
    assert(s.subrange(a, a + t.len()) =~= t);
    assert forall|k: int| a + t.len() <= k < s.len() implies is_space(#[trigger] s[k]) by {
        assert(s[k] == rest[k - a]);
    }
    if t.len() > 0 {
        assert(t[0] == s[a]);
        assert(t.last() == rest[rest.len() - trail_spaces(rest) - 1]);
    }
}

/// The pieces joined again, with `sep` between each two.
pub open spec fn joined_with(pieces: Seq<Seq<char>>, sep: Seq<char>) -> Seq<char>
    decreases pieces.len(),
{
    if pieces.len() == 0 {
        Seq::empty()
    } else if pieces.len() == 1 {
        pieces[0]
    } else {
        pieces[0] + sep + joined_with(pieces.drop_first(), sep)
    }
}

/// Splitting loses nothing: there is at least one piece, no piece holds the
/// separator, and the pieces joined with the separator give the text back.
pub proof fn lemma_split_law(s: Seq<char>, sep: Seq<char>)
    requires
        sep.len() > 0,
    ensures
        split_text(s, sep).len() >= 1,
        joined_with(split_text(s, sep), sep) == s,
        forall|j: int| 0 <= j < split_text(s, sep).len() ==> !has_infix(#[trigger] split_text(s, sep)[j], sep),
    decreases s.len(),
{
    lemma_find_from(s, sep, 0);
    match find_from(s, sep, 0) {
        Some(i) => {
            let p = s.subrange(0, i as int);
            let rest = s.subrange((i + sep.len()) as int, s.len() as int);
            lemma_split_law(rest, sep);
            let q = split_text(rest, sep);
            let all = split_text(s, sep);
            assert(all == seq![p] + q);
            assert(all.drop_first() =~= q);
            assert(s.subrange(i as int, (i + sep.len()) as int) == sep);
            assert(s =~= p + sep + rest);
            assert forall|j: int| 0 <= j < all.len() implies !has_infix(#[trigger] all[j], sep) by {
                if j == 0 {
                    assert forall|k: int| !occurs_at(p, sep, k) by {
                        if occurs_at(p, sep, k) {
                            assert(s.subrange(k, k + sep.len()) =~= p.subrange(k, k + sep.len()));
                            assert(occurs_at(s, sep, k));
                        }
                    }
                } else {
                    assert(all[j] == q[j - 1]);
                }
            }
        },
        None => {
            assert forall|k: int| !occurs_at(s, sep, k) by {
                if k < 0 {
                }
            }
        },
    }
}

/// A part of a text that holds no `sep` holds no `sep` either.
pub proof fn lemma_no_infix_in_part(p: Seq<char>, sep: Seq<char>, a: int, b: int)
    requires
        0 <= a <= b <= p.len(),
        !has_infix(p, sep),
    ensures
        !has_infix(p.subrange(a, b), sep),
{
    let n = p.subrange(a, b);
    assert forall|k: int| !occurs_at(n, sep, k) by {
        if occurs_at(n, sep, k) {
            assert(p.subrange(a + k, a + k + sep.len()) =~= n.subrange(k, k + sep.len()));
            assert(occurs_at(p, sep, a + k));
        }
    }
}

/// Each piece stands whole in the joined text, at the offset returned.
pub proof fn lemma_joined_holds_piece(pieces: Seq<Seq<char>>, sep: Seq<char>, j: int) -> (a: int)
    requires
        0 <= j < pieces.len(),
    ensures
        0 <= a,
        a + pieces[j].len() <= joined_with(pieces, sep).len(),
        joined_with(pieces, sep).subrange(a, a + pieces[j].len()) == pieces[j],
    decreases j,
{
    let w = joined_with(pieces, sep);
    if pieces.len() == 1 || j == 0 {
        assert(w.subrange(0, pieces[0].len() as int) =~= pieces[0]);
        0
    } else {
        let d = pieces.drop_first();
        let a0 = lemma_joined_holds_piece(d, sep, j - 1);
        let rest = joined_with(d, sep);
        let off = pieces[0].len() + sep.len();
        assert(w == pieces[0] + sep + rest);
        assert(w.subrange(off + a0, off + a0 + pieces[j].len()) =~= rest.subrange(a0, a0 + d[j - 1].len()));
        off + a0
    }
}

/// `s` without its leading and trailing whitespace.
pub fn trim(s: &str) -> (r: String)
    ensures
        r@ == trim_text(s@),
{
    let v = chars_of(s);
    let mut a: usize = 0;
    proof {
        lemma_lead_bound(s@);
        assert(s@.subrange(0, s@.len() as int) =~= s@);
    }
    while a < v.len() && space_char(v[a])
        invariant
            a <= v.len(),
            v@ == s@,
            lead_spaces(s@) == a + lead_spaces(s@.subrange(a as int, s@.len() as int)),
        decreases v.len() - a,
    {
        proof {
            let t = s@.subrange(a as int, s@.len() as int);
            assert(t.drop_first() =~= s@.subrange(a + 1, s@.len() as int));
        }
        a = a + 1;
    }
    proof {
        let t = s@.subrange(a as int, s@.len() as int);
        if a < v.len() {
            assert(t[0] == v@[a as int]);
        }
    }
    let rest = slice_chars(&v, a, v.len());
    let mut b: usize = rest.len();
    proof {
        lemma_trail_bound(rest@);
        assert(rest@.subrange(0, rest.len() as int) =~= rest@);
    }
    while b > 0 && space_char(rest[b - 1])
        invariant
            b <= rest.len(),
            trail_spaces(rest@) == (rest.len() - b) + trail_spaces(rest@.subrange(0, b as int)),
        decreases b,
    {
        proof {
            let t = rest@.subrange(0, b as int);
            assert(t.drop_last() =~= rest@.subrange(0, b - 1));
        }
        b = b - 1;
    }
    proof {
        let t = rest@.subrange(0, b as int);
        if b > 0 {
            assert(t.last() == rest@[b - 1]);
        }
        assert(trail_spaces(t) == 0);
    }
    let out = slice_chars(&rest, 0, b);
    string_of(out.as_slice())
}

} // verus!
