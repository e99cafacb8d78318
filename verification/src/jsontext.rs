use crate::helper::MapId;
use vstd::prelude::*;
use vstd::string::StrSliceExecFns;

verus! {

/// Whether `pat` occurs in `s` starting at position `i`.
pub open spec fn has_at(s: Seq<char>, i: int, pat: Seq<char>) -> bool {
    &&& 0 <= i
    &&& i + pat.len() <= s.len()
    &&& forall|k: int| 0 <= k < pat.len() ==> s[i + k] == (#[trigger] pat[k])
}

/// An occurrence of a concatenation is an occurrence of each part.
pub proof fn lemma_has_at_split(s: Seq<char>, i: int, a: Seq<char>, b: Seq<char>)
    requires
        has_at(s, i, a + b),
    ensures
        has_at(s, i, a),
        has_at(s, i + a.len(), b),
{
    assert forall|k: int| 0 <= k < a.len() implies s[i + k] == (#[trigger] a[k]) by {
        assert((a + b)[k] == a[k]);
        assert(s[i + k] == (a + b)[k]);
    }
    assert forall|k: int| 0 <= k < b.len() implies s[i + a.len() + k] == (#[trigger] b[k]) by {
        assert((a + b)[a.len() + k] == b[k]);
        assert(s[i + (a.len() + k)] == (a + b)[a.len() + k]);
    }
}

/// An occurrence of each part in turn is an occurrence of the
/// concatenation.
pub proof fn lemma_has_at_join(s: Seq<char>, i: int, a: Seq<char>, b: Seq<char>)
    requires
        has_at(s, i, a),
        has_at(s, i + a.len(), b),
    ensures
        has_at(s, i, a + b),
{
    assert forall|k: int| 0 <= k < (a + b).len() implies s[i + k] == (#[trigger] (a + b)[k]) by {
        if k < a.len() {
            assert(s[i + k] == a[k]);
        } else {
            assert(s[i + a.len() + (k - a.len())] == b[k - a.len()]);
        }
    }
}

/// JSON escaping of one character: quote and backslash get a backslash,
/// everything else stands for itself.
pub open spec fn esc_char(c: char) -> Seq<char> {
    if c == '"' {
        seq!['\\', '"']
    } else if c == '\\' {
        seq!['\\', '\\']
    } else {
        seq![c]
    }
}

/// JSON escaping of a character sequence.
pub open spec fn esc(s: Seq<char>) -> Seq<char>
    decreases s.len(),
{
    if s.len() == 0 {
        Seq::empty()
    } else {
        esc_char(s[0]) + esc(s.drop_first())
    }
}

/// Escaping a sequence extended by one character appends that character's
/// escaping.
pub proof fn lemma_esc_push(s: Seq<char>, c: char)
    ensures
        esc(s.push(c)) == esc(s) + esc_char(c),
    decreases s.len(),
{
    if s.len() == 0 {
        let one = s.push(c);
        assert(one.len() == 1 && one[0] == c);
        assert(one.drop_first() =~= Seq::<char>::empty());
        assert(esc(one) == esc_char(c) + esc(Seq::<char>::empty()));
        assert(esc_char(c) + Seq::<char>::empty() =~= esc_char(c));
        assert(esc(s) + esc_char(c) =~= esc_char(c));
    } else {
        assert(s.push(c)[0] == s[0]);
        assert(s.push(c).len() == s.len() + 1);
        assert(s.push(c).drop_first() =~= s.drop_first().push(c));
        lemma_esc_push(s.drop_first(), c);
        assert(esc_char(s[0]) + (esc(s.drop_first()) + esc_char(c)) =~= (esc_char(s[0]) + esc(
            s.drop_first(),
        )) + esc_char(c));
    }
}

/// The JSON string literal denoting `s`: quoted and escaped.
pub open spec fn render_string(s: Seq<char>) -> Seq<char> {
    seq!['"'] + esc(s) + seq!['"']
}

/// The body of a JSON string literal, parsed from position `i` (just after
/// the opening quote) to its closing quote: the unescaped content and the
/// position after the closing quote. Exactly the two escapes the renderer
/// emits are recognized.
pub open spec fn spec_parse_strbody(s: Seq<char>, i: int) -> Option<(Seq<char>, int)>
    decreases s.len() - i,
{
    if i < 0 || i >= s.len() {
        None
    } else if s[i] == '"' {
        Some((Seq::empty(), i + 1))
    } else if s[i] == '\\' {
        if i + 1 < s.len() && (s[i + 1] == '"' || s[i + 1] == '\\') {
            match spec_parse_strbody(s, i + 2) {
                Some((t, j)) => Some((seq![s[i + 1]] + t, j)),
                None => None,
            }
        } else {
            None
        }
    } else {
        match spec_parse_strbody(s, i + 1) {
            Some((t, j)) => Some((seq![s[i]] + t, j)),
            None => None,
        }
    }
}

/// A JSON string literal parsed from its opening quote at position `i`.
pub open spec fn spec_parse_string(s: Seq<char>, i: int) -> Option<(Seq<char>, int)> {
    if 0 <= i < s.len() && s[i] == '"' {
        spec_parse_strbody(s, i + 1)
    } else {
        None
    }
}

/// A parsed string body ends after where it began and within the input.
pub proof fn lemma_parse_strbody_advances(s: Seq<char>, i: int)
    ensures
        spec_parse_strbody(s, i) matches Some((t, j)) ==> i < j <= s.len(),
    decreases s.len() - i,
{
    if 0 <= i < s.len() {
        if s[i] == '\\' {
            if i + 1 < s.len() {
                lemma_parse_strbody_advances(s, i + 2);
            }
        } else if s[i] != '"' {
            lemma_parse_strbody_advances(s, i + 1);
        }
    }
}

/// Parsing inverts rendering, for string bodies: where the escaped form of
/// `x` followed by a closing quote occurs, the parser recovers exactly `x`.
pub proof fn lemma_parse_strbody_inverts(s: Seq<char>, i: int, x: Seq<char>)
    requires
        has_at(s, i, esc(x) + seq!['"']),
    ensures
        spec_parse_strbody(s, i) == Some((x, i + esc(x).len() + 1)),
    decreases x.len(),
{
    if x.len() == 0 {
        assert(esc(x) + seq!['"'] =~= seq!['"']);
        assert(s[i] == (esc(x) + seq!['"'])[0]);
    } else {
        let hd = esc_char(x[0]);
        let tl = esc(x.drop_first()) + seq!['"'];
        assert(esc(x) + seq!['"'] =~= hd + tl);
        lemma_has_at_split(s, i, hd, tl);
        if x[0] == '"' || x[0] == '\\' {
            assert(s[i] == hd[0] && s[i + 1] == hd[1]);
            lemma_parse_strbody_inverts(s, i + 2, x.drop_first());
            assert(seq![s[i + 1]] + x.drop_first() =~= x);
        } else {
            assert(s[i] == hd[0]);
            lemma_parse_strbody_inverts(s, i + 1, x.drop_first());
            assert(seq![s[i]] + x.drop_first() =~= x);
        }
    }
}

/// Parsing inverts rendering, for whole string literals.
pub proof fn lemma_parse_string_inverts(s: Seq<char>, i: int, x: Seq<char>)
    requires
        has_at(s, i, render_string(x)),
    ensures
        spec_parse_string(s, i) == Some((x, i + render_string(x).len())),
        s[i] == '"',
{
    assert(render_string(x) =~= seq!['"'] + (esc(x) + seq!['"']));
    lemma_has_at_split(s, i, seq!['"'], esc(x) + seq!['"']);
    assert(s[i] == (seq!['"'])[0]);
    lemma_parse_strbody_inverts(s, i + 1, x);
}

/// Whether a character is a decimal digit.
pub open spec fn is_digit(c: char) -> bool {
    c == '0' || c == '1' || c == '2' || c == '3' || c == '4' || c == '5' || c == '6' || c == '7'
        || c == '8' || c == '9'
}

/// The value of a decimal digit.
pub open spec fn digit_val(c: char) -> int {
    if c == '0' {
        0
    } else if c == '1' {
        1
    } else if c == '2' {
        2
    } else if c == '3' {
        3
    } else if c == '4' {
        4
    } else if c == '5' {
        5
    } else if c == '6' {
        6
    } else if c == '7' {
        7
    } else if c == '8' {
        8
    } else {
        9
    }
}

/// The digit denoting a value below ten.
pub open spec fn dec_digit(d: int) -> char {
    if d == 0 {
        '0'
    } else if d == 1 {
        '1'
    } else if d == 2 {
        '2'
    } else if d == 3 {
        '3'
    } else if d == 4 {
        '4'
    } else if d == 5 {
        '5'
    } else if d == 6 {
        '6'
    } else if d == 7 {
        '7'
    } else if d == 8 {
        '8'
    } else {
        '9'
    }
}

/// The decimal rendering of a non-negative number, without leading zeros.
pub open spec fn dec_of(n: int) -> Seq<char>
    decreases n,
{
    if n <= 9 {
        seq![dec_digit(n)]
    } else {
        dec_of(n / 10) + seq![dec_digit(n % 10)]
    }
}

/// The value denoted by a digit sequence, most significant digit first.
pub open spec fn digits_val(ds: Seq<char>) -> int
    decreases ds.len(),
{
    if ds.len() == 0 {
        0
    } else {
        digits_val(ds.drop_last()) * 10 + digit_val(ds.last())
    }
}

/// Whether every character is a decimal digit.
pub open spec fn all_digits(ds: Seq<char>) -> bool {
    forall|k: int| 0 <= k < ds.len() ==> is_digit(#[trigger] ds[k])
}

/// The rendering of a non-negative number consists of digits, denotes the
/// number, and is non-empty.
pub proof fn lemma_dec_of_digits(n: int)
    requires
        n >= 0,
    ensures
        all_digits(dec_of(n)),
        digits_val(dec_of(n)) == n,
        dec_of(n).len() >= 1,
    decreases n,
{
    if n <= 9 {
        assert(digits_val(dec_of(n).drop_last()) == 0) by {
            assert(dec_of(n).drop_last() =~= Seq::<char>::empty());
        }
    } else {
        lemma_dec_of_digits(n / 10);
        assert(dec_of(n).drop_last() =~= dec_of(n / 10));
        assert(dec_of(n).last() == dec_digit(n % 10));
        assert(digit_val(dec_digit(n % 10)) == n % 10);
        assert(forall|k: int|
            0 <= k < dec_of(n).len() - 1 ==> dec_of(n)[k] == dec_of(n / 10)[k]);
    }
}

/// The position just past the run of digits starting at `i`.
pub open spec fn digit_run_end(s: Seq<char>, i: int) -> int
    decreases s.len() - i,
{
    if 0 <= i && i < s.len() && is_digit(s[i]) {
        digit_run_end(s, i + 1)
    } else {
        i
    }
}

/// The digit run starting at `i` ends exactly where the digits stop.
pub proof fn lemma_digit_run(s: Seq<char>, i: int, j: int)
    requires
        0 <= i <= j <= s.len(),
        forall|k: int| i <= k < j ==> is_digit(#[trigger] s[k]),
        j == s.len() || !is_digit(s[j]),
    ensures
        digit_run_end(s, i) == j,
    decreases j - i,
{
    if i < j {
        lemma_digit_run(s, i + 1, j);
    }
}

/// A parsed key: the value of the digit run starting at `i`, accepted when
/// the run is non-empty and the value fits a positive [`MapId`].
pub open spec fn spec_parse_key(s: Seq<char>, i: int) -> Option<(int, int)> {
    let j = digit_run_end(s, i);
    if 0 <= i && j > i {
        let n = digits_val(s.subrange(i, j));
        if 1 <= n <= MapId::MAX as int {
            Some((n, j))
        } else {
            None
        }
    } else {
        None
    }
}

/// Parsing inverts rendering, for keys: where the decimal rendering of an
/// in-range key occurs, followed by a non-digit or the end of input, the
/// parser recovers exactly that key.
pub proof fn lemma_parse_key_inverts(s: Seq<char>, i: int, n: int)
    requires
        1 <= n <= MapId::MAX as int,
        has_at(s, i, dec_of(n)),
        i + dec_of(n).len() == s.len() || !is_digit(s[i + dec_of(n).len()]),
    ensures
        spec_parse_key(s, i) == Some((n, i + dec_of(n).len())),
{
    lemma_dec_of_digits(n);
    let j = i + dec_of(n).len();
    assert(forall|k: int| i <= k < j ==> is_digit(#[trigger] s[k])) by {
        assert(forall|k: int| i <= k < j ==> s[k] == dec_of(n)[k - i]);
    }
    lemma_digit_run(s, i, j);
    assert(s.subrange(i, j) =~= dec_of(n));
}

/// Relies on `String::from_iter`: collecting characters into a string.
#[verifier::external_body]
pub(crate) fn string_from_chars(v: Vec<char>) -> (r: String)
    ensures
        r@ == v@,
{
    v.into_iter().collect()
}

/// Append the characters of `s` as they are.
pub(crate) fn append_str(out: &mut Vec<char>, s: &str)
    ensures
        final(out)@ == old(out)@ + s@,
{
    let n = s.unicode_len();
    let mut i: usize = 0;
    while i < n
        invariant
            i <= n,
            n == s@.len(),
            out@ == old(out)@ + s@.take(i as int),
        decreases n - i,
    {
        out.push(s.get_char(i));
        proof {
            assert(s@.take(i as int + 1) =~= s@.take(i as int).push(s@[i as int]));
        }
        i += 1;
    }
    proof {
        assert(s@.take(n as int) =~= s@);
    }
}

/// Append the JSON string literal denoting `s`: quoted and escaped.
pub(crate) fn append_json_string(out: &mut Vec<char>, s: &str)
    ensures
        final(out)@ == old(out)@ + render_string(s@),
{
    out.push('"');
    let n = s.unicode_len();
    let mut i: usize = 0;
    while i < n
        invariant
            i <= n,
            n == s@.len(),
            out@ == old(out)@ + seq!['"'] + esc(s@.take(i as int)),
        decreases n - i,
    {
        let c = s.get_char(i);
        if c == '"' || c == '\\' {
            out.push('\\');
            out.push(c);
        } else {
            out.push(c);
        }
        proof {
            assert(s@.take(i as int + 1) =~= s@.take(i as int).push(c));
            lemma_esc_push(s@.take(i as int), c);
        }
        i += 1;
    }
    out.push('"');
    proof {
        assert(s@.take(n as int) =~= s@);
        assert(old(out)@ + seq!['"'] + esc(s@) + seq!['"'] =~= old(out)@ + render_string(s@));
    }
}

/// The digit denoting a value below ten.
fn digit_char(d: i32) -> (c: char)
    requires
        0 <= d <= 9,
    ensures
        c == dec_digit(d as int),
{
    match d {
        0 => '0',
        1 => '1',
        2 => '2',
        3 => '3',
        4 => '4',
        5 => '5',
        6 => '6',
        7 => '7',
        8 => '8',
        _ => '9',
    }
}

/// Append the decimal rendering of a positive key.
pub(crate) fn append_key(out: &mut Vec<char>, k: i32)
    requires
        k >= 0,
    ensures
        final(out)@ == old(out)@ + dec_of(k as int),
    decreases k,
{
    if k <= 9 {
        out.push(digit_char(k));
        proof {
            assert(old(out)@.push(dec_digit(k as int)) =~= old(out)@ + dec_of(k as int));
        }
    } else {
        append_key(out, k / 10);
        out.push(digit_char(k % 10));
        proof {
            assert((old(out)@ + dec_of(k as int / 10)).push(dec_digit(k as int % 10)) =~= old(
                out,
            )@ + dec_of(k as int));
        }
    }
}

/// The characters of `s`, one by one.
pub(crate) fn chars_of(s: &str) -> (r: Vec<char>)
    ensures
        r@ == s@,
{
    let n = s.unicode_len();
    let mut r: Vec<char> = Vec::new();
    let mut i: usize = 0;
    while i < n
        invariant
            i <= n,
            n == s@.len(),
            r@ == s@.take(i as int),
        decreases n - i,
    {
        r.push(s.get_char(i));
        proof {
            assert(s@.take(i as int + 1) =~= s@.take(i as int).push(s@[i as int]));
        }
        i += 1;
    }
    proof {
        assert(s@.take(n as int) =~= s@);
    }
    r
}

/// The position after `lit`, when `lit` occurs at position `i`.
pub(crate) fn expect_lit(v: &Vec<char>, i: usize, lit: &str) -> (r: Option<usize>)
    ensures
        match r {
            Some(j) => has_at(v@, i as int, lit@) && j == i + lit@.len(),
            None => !has_at(v@, i as int, lit@),
        },
{
    let n = lit.unicode_len();
    let vn = v.len();
    if i > vn || n > vn - i {
        return None;
    }
    let mut k: usize = 0;
    while k < n
        invariant
            k <= n,
            n == lit@.len(),
            i + n <= vn,
            vn == v@.len(),
            forall|t: int| 0 <= t < k ==> v@[i + t] == (#[trigger] lit@[t]),
        decreases n - k,
    {
        if v[i + k] != lit.get_char(k) {
            return None;
        }
        k += 1;
    }
    Some(i + n)
}

/// The result a string-body parse starting behind `acc` would carry.
spec fn strbody_with_prefix(acc: Seq<char>, s: Seq<char>, cur: int) -> Option<(Seq<char>, int)> {
    match spec_parse_strbody(s, cur) {
        Some((t, j)) => Some((acc + t, j)),
        None => None,
    }
}

/// Parse the JSON string literal at position `i`: its unescaped content and
/// the position after the closing quote.
pub(crate) fn parse_string_at(v: &Vec<char>, i: usize) -> (r: Option<(String, usize)>)
    ensures
        match r {
            Some((x, j)) => spec_parse_string(v@, i as int) == Some((x@, j as int)),
            None => spec_parse_string(v@, i as int) is None,
        },
{
    if i >= v.len() || v[i] != '"' {
        return None;
    }
    let mut acc: Vec<char> = Vec::new();
    let mut cur: usize = i + 1;
    proof {
        match spec_parse_strbody(v@, i as int + 1) {
            Some((t, j)) => {
                assert(Seq::<char>::empty() + t =~= t);
            },
            None => {},
        }
    }
    while cur < v.len()
        invariant
            i as int + 1 <= cur as int,
            i < v@.len(),
            v@[i as int] == '"',
            spec_parse_strbody(v@, i as int + 1) == strbody_with_prefix(acc@, v@, cur as int),
        decreases v.len() - cur,
    {
        let c = v[cur];
        if c == '"' {
            proof {
                assert(acc@ + Seq::<char>::empty() =~= acc@);
                assert(spec_parse_strbody(v@, cur as int) == Some(
                    (Seq::<char>::empty(), cur as int + 1),
                ));
                assert(spec_parse_string(v@, i as int) == Some((acc@, cur as int + 1)));
            }
            return Some((string_from_chars(acc), cur + 1));
        } else if c == '\\' {
            if cur + 1 < v.len() && (v[cur + 1] == '"' || v[cur + 1] == '\\') {
                let e = v[cur + 1];
                let ghost acc0 = acc@;
                acc.push(e);
                proof {
                    match spec_parse_strbody(v@, cur as int + 2) {
                        Some((t, j)) => {
                            assert(acc0.push(e) + t =~= acc0 + (seq![e] + t));
                        },
                        None => {},
                    }
                }
                cur = cur + 2;
            } else {
                return None;
            }
        } else {
            let ghost acc0 = acc@;
            acc.push(c);
            proof {
                match spec_parse_strbody(v@, cur as int + 1) {
                    Some((t, j)) => {
                        assert(acc0.push(c) + t =~= acc0 + (seq![c] + t));
                    },
                    None => {},
                }
            }
            cur = cur + 1;
        }
    }
    None
}

/// Parse the key at position `i`: the value of the digit run there, when it
/// is non-empty and fits a positive [`MapId`].
pub(crate) fn parse_key_at(v: &Vec<char>, i: usize) -> (r: Option<(i32, usize)>)
    ensures
        match r {
            Some((n, j)) => spec_parse_key(v@, i as int) == Some((n as int, j as int)),
            None => spec_parse_key(v@, i as int) is None,
        },
{
    if i >= v.len() {
        return None;
    }
    let mut cur: usize = i;
    let mut acc: i64 = 0;
    let ghost mut g: int = 0;
    proof {
        assert(v@.subrange(i as int, i as int) =~= Seq::<char>::empty());
    }
    while cur < v.len() && is_digit_exec(v[cur])
        invariant
            i <= cur <= v@.len(),
            digit_run_end(v@, i as int) == digit_run_end(v@, cur as int),
            g == digits_val(v@.subrange(i as int, cur as int)),
            g >= 0,
            g <= MapId::MAX as int ==> acc == g,
            g > MapId::MAX as int ==> acc > MapId::MAX as i64,
            0 <= acc <= i32::MAX as i64 * 10 + 9,
        decreases v.len() - cur,
    {
        let c = v[cur];
        let d = digit_val_exec(c);
        proof {
            assert(v@.subrange(i as int, cur as int + 1).drop_last() =~= v@.subrange(
                i as int,
                cur as int,
            ));
            assert(v@.subrange(i as int, cur as int + 1).last() == v@[cur as int]);
        }
        if acc <= i32::MAX as i64 {
            acc = acc * 10 + d as i64;
        }
        proof {
            g = g * 10 + digit_val(c);
        }
        cur = cur + 1;
    }
    proof {
        assert(digit_run_end(v@, cur as int) == cur as int);
    }
    if cur == i {
        return None;
    }
    if acc < 1 || acc > i32::MAX as i64 {
        return None;
    }
    Some((acc as i32, cur))
}

/// Whether a character is a decimal digit.
fn is_digit_exec(c: char) -> (r: bool)
    ensures
        r == is_digit(c),
{
    c == '0' || c == '1' || c == '2' || c == '3' || c == '4' || c == '5' || c == '6' || c == '7'
        || c == '8' || c == '9'
}

/// The value of a decimal digit.
fn digit_val_exec(c: char) -> (d: i64)
    requires
        is_digit(c),
    ensures
        d == digit_val(c),
{
    if c == '0' {
        0
    } else if c == '1' {
        1
    } else if c == '2' {
        2
    } else if c == '3' {
        3
    } else if c == '4' {
        4
    } else if c == '5' {
        5
    } else if c == '6' {
        6
    } else if c == '7' {
        7
    } else if c == '8' {
        8
    } else {
        9
    }
}

} // verus!
