//! Text helpers: splitting, trimming, concatenation and comparison of strings.
use vstd::prelude::*;
use vstd::string::*;

verus! {

/// Whether `c` counts as white space for `str::trim`: the characters with the
/// Unicode `White_Space` property.
pub open spec fn char_is_whitespace(c: char) -> bool {
    let u = c as u32;
    ||| 0x09 <= u <= 0x0D
    ||| u == 0x20
    ||| u == 0x85
    ||| u == 0xA0
    ||| u == 0x1680
    ||| 0x2000 <= u <= 0x200A
    ||| u == 0x2028
    ||| u == 0x2029
    ||| u == 0x202F
    ||| u == 0x205F
    ||| u == 0x3000
}

/// `s` without its leading white space.
pub open spec fn trim_start_spec(s: Seq<char>) -> Seq<char>
    decreases s.len(),
{
    if s.len() > 0 && char_is_whitespace(s[0]) {
        trim_start_spec(s.drop_first())
    } else {
        s
    }
}

/// `s` without its trailing white space.
pub open spec fn trim_end_spec(s: Seq<char>) -> Seq<char>
    decreases s.len(),
{
    if s.len() > 0 && char_is_whitespace(s.last()) {
        trim_end_spec(s.drop_last())
    } else {
        s
    }
}

/// `s` without leading and trailing white space.
pub open spec fn trim_spec(s: Seq<char>) -> Seq<char> {
    trim_end_spec(trim_start_spec(s))
}

/// `str::trim`: drops leading and trailing Unicode white space, and nothing
/// else.
#[verifier::external_body]
pub(crate) fn trim_text(s: &str) -> (r: &str)
    ensures
        r@ == trim_spec(s@),
        r@.len() > 0 ==> !char_is_whitespace(r@[0]) && !char_is_whitespace(r@.last()),
{
    s.trim()
}

/// The pieces of `s` between occurrences of `sep` (what `str::split` yields).
pub open spec fn split_spec(s: Seq<char>, sep: char) -> Seq<Seq<char>>
    decreases s.len(),
{
    if s.len() == 0 {
        seq![Seq::<char>::empty()]
    } else {
        let init = split_spec(s.drop_last(), sep);
        if s.last() == sep {
            init.push(Seq::<char>::empty())
        } else {
            init.update(init.len() - 1, init.last().push(s.last()))
        }
    }
}

pub proof fn lemma_split_nonempty(s: Seq<char>, sep: char)
    ensures
        split_spec(s, sep).len() >= 1,
    decreases s.len(),
{
    if s.len() > 0 {
        lemma_split_nonempty(s.drop_last(), sep);
    }
}

pub open spec fn strings_view(v: Seq<String>) -> Seq<Seq<char>> {
    v.map_values(|p: String| p@)
}

/// Splits `s` at every `sep`.
pub fn split_on_char(s: &str, sep: char) -> (r: Vec<String>)
    ensures
        strings_view(r@) == split_spec(s@, sep),
{
    let n = s.unicode_len();
    let mut parts: Vec<String> = Vec::new();
    let mut start: usize = 0;
    let mut i: usize = 0;
    proof {
        assert(s@.take(0) == Seq::<char>::empty());
        assert(strings_view(parts@) == Seq::<Seq<char>>::empty());
        assert(s@.subrange(0, 0) == Seq::<char>::empty());
    }
    while i < n
        invariant
            n == s@.len(),
            start <= i <= n,
            strings_view(parts@).push(s@.subrange(start as int, i as int)) == split_spec(
                s@.take(i as int),
                sep,
            ),
        decreases n - i,
    {
        let c = s.get_char(i);
        proof {
            assert(s@.take(i + 1).drop_last() == s@.take(i as int));
            assert(s@.take(i + 1).last() == c);
            lemma_split_nonempty(s@.take(i as int), sep);
        }
        if c == sep {
            let piece = s.substring_char(start, i).to_owned();
            let ghost old_parts = parts@;
            parts.push(piece);
            start = i + 1;
            proof {
                assert(strings_view(parts@) == strings_view(old_parts).push(piece@));
                assert(s@.subrange(start as int, i + 1) == Seq::<char>::empty());
            }
        } else {
            proof {
                assert(s@.subrange(start as int, i + 1) == s@.subrange(start as int, i as int).push(c));
            }
        }
        i = i + 1;
    }
    let last = s.substring_char(start, n).to_owned();
    let ghost old_parts = parts@;
    parts.push(last);
    proof {
        assert(s@.take(n as int) == s@);
        assert(strings_view(parts@) == strings_view(old_parts).push(last@));
    }
    parts
}

/// `a` followed by `b`.
pub fn concat2(a: &str, b: &str) -> (r: String)
    ensures
        r@ == a@ + b@,
{
    let mut r = String::from_str(a);
    r.append(b);
    r
}

/// `a`, `b` and `c` one after another.
pub fn concat3(a: &str, b: &str, c: &str) -> (r: String)
    ensures
        r@ == a@ + b@ + c@,
{
    let mut r = String::from_str(a);
    r.append(b);
    r.append(c);
    r
}

/// Lexicographic "strictly before" on character sequences, comparing code
/// points (the order of `String`'s `Ord`).
pub open spec fn seq_lt(a: Seq<char>, b: Seq<char>) -> bool
    decreases a.len(),
{
    if a.len() == 0 {
        b.len() > 0
    } else if b.len() == 0 {
        false
    } else if a[0] != b[0] {
        (a[0] as int) < (b[0] as int)
    } else {
        seq_lt(a.drop_first(), b.drop_first())
    }
}

pub proof fn lemma_seq_lt_irreflexive(a: Seq<char>)
    ensures
        !seq_lt(a, a),
    decreases a.len(),
{
    if a.len() > 0 {
        lemma_seq_lt_irreflexive(a.drop_first());
    }
}

pub proof fn lemma_seq_lt_transitive(a: Seq<char>, b: Seq<char>, c: Seq<char>)
    requires
        seq_lt(a, b),
        seq_lt(b, c),
    ensures
        seq_lt(a, c),
    decreases a.len(),
{
    if a.len() > 0 && b.len() > 0 && c.len() > 0 && a[0] == b[0] && b[0] == c[0] {
        lemma_seq_lt_transitive(a.drop_first(), b.drop_first(), c.drop_first());
    }
}

pub proof fn lemma_seq_lt_total(a: Seq<char>, b: Seq<char>)
    ensures
        a == b || seq_lt(a, b) || seq_lt(b, a),
        !(seq_lt(a, b) && seq_lt(b, a)),
    decreases a.len(),
{
    if a.len() > 0 && b.len() > 0 {
        if a[0] == b[0] {
            lemma_seq_lt_total(a.drop_first(), b.drop_first());
            if a.drop_first() == b.drop_first() {
                assert(a =~= seq![a[0]] + a.drop_first());
                assert(b =~= seq![b[0]] + b.drop_first());
            }
        } else {
            assert((a[0] as int) != (b[0] as int));
        }
    } else if a.len() == 0 && b.len() == 0 {
        assert(a =~= b);
    }
}

/// `a` sorts strictly before `b`.
pub fn str_lt(a: &str, b: &str) -> (r: bool)
    ensures
        r == seq_lt(a@, b@),
{
    let la = a.unicode_len();
    let lb = b.unicode_len();
    let mut i: usize = 0;
    proof {
        assert(a@.skip(0) == a@);
        assert(b@.skip(0) == b@);
    }
    while i < la && i < lb
        invariant
            la == a@.len(),
            lb == b@.len(),
            i <= la,
            i <= lb,
            seq_lt(a@, b@) == seq_lt(a@.skip(i as int), b@.skip(i as int)),
        decreases la - i,
    {
        let ca = a.get_char(i);
        let cb = b.get_char(i);
        if ca != cb {
            proof {
                assert(a@.skip(i as int)[0] == ca);
                assert(b@.skip(i as int)[0] == cb);
            }
            return (ca as u32) < (cb as u32);
        }
        proof {
            assert(a@.skip(i as int).drop_first() == a@.skip(i + 1));
            assert(b@.skip(i as int).drop_first() == b@.skip(i + 1));
        }
        i = i + 1;
    }
    proof {
        assert(a@.skip(i as int).len() == la - i);
        assert(b@.skip(i as int).len() == lb - i);
    }
    i == la && i < lb
}

/// The text of one decimal digit.
pub open spec fn digit_text(d: int) -> Seq<char> {
    if d == 0 {
        "0"@
    } else if d == 1 {
        "1"@
    } else if d == 2 {
        "2"@
    } else if d == 3 {
        "3"@
    } else if d == 4 {
        "4"@
    } else if d == 5 {
        "5"@
    } else if d == 6 {
        "6"@
    } else if d == 7 {
        "7"@
    } else if d == 8 {
        "8"@
    } else {
        "9"@
    }
}

/// `n` written in decimal, as `{}` prints an unsigned integer.
pub open spec fn decimal_text(n: nat) -> Seq<char>
    decreases n,
{
    if n < 10 {
        digit_text(n as int)
    } else {
        decimal_text(n / 10) + digit_text((n % 10) as int)
    }
}

fn digit_str(d: u64) -> (r: &'static str)
    requires
        d < 10,
    ensures
        r@ == digit_text(d as int),
{
    if d == 0 {
        "0"
    } else if d == 1 {
        "1"
    } else if d == 2 {
        "2"
    } else if d == 3 {
        "3"
    } else if d == 4 {
        "4"
    } else if d == 5 {
        "5"
    } else if d == 6 {
        "6"
    } else if d == 7 {
        "7"
    } else if d == 8 {
        "8"
    } else {
        "9"
    }
}

/// Different numbers are written differently in decimal.
pub proof fn lemma_decimal_text_injective(a: nat, b: nat)
    requires
        decimal_text(a) == decimal_text(b),
    ensures
        a == b,
    decreases a,
{
    reveal_strlit("0");
    reveal_strlit("1");
    reveal_strlit("2");
    reveal_strlit("3");
    reveal_strlit("4");
    reveal_strlit("5");
    reveal_strlit("6");
    reveal_strlit("7");
    reveal_strlit("8");
    reveal_strlit("9");
    lemma_decimal_text_len(a);
    lemma_decimal_text_len(b);
    if a < 10 && b < 10 {
        assert(digit_text(a as int)[0] == digit_text(b as int)[0]);
    } else if a >= 10 && b >= 10 {
        let pa = decimal_text(a / 10);
        let pb = decimal_text(b / 10);
        let da = digit_text((a % 10) as int);
        let db = digit_text((b % 10) as int);
        assert(decimal_text(a) == pa + da);
        assert(decimal_text(b) == pb + db);
        assert(da.len() == 1 && db.len() == 1);
        assert(pa.len() == pb.len());
        assert(pa =~= decimal_text(a).subrange(0, pa.len() as int));
        assert(pb =~= decimal_text(b).subrange(0, pb.len() as int));
        assert(da[0] == decimal_text(a)[pa.len() as int]);
        assert(db[0] == decimal_text(b)[pb.len() as int]);
        lemma_decimal_text_injective(a / 10, b / 10);
    } else {
        assert(false);
    }
}

/// A number written in decimal takes one character, and one more per factor
/// of ten.
pub proof fn lemma_decimal_text_len(n: nat)
    ensures
        n < 10 ==> decimal_text(n).len() == 1,
        n >= 10 ==> decimal_text(n).len() >= 2,
    decreases n,
{
    reveal_strlit("0");
    reveal_strlit("1");
    reveal_strlit("2");
    reveal_strlit("3");
    reveal_strlit("4");
    reveal_strlit("5");
    reveal_strlit("6");
    reveal_strlit("7");
    reveal_strlit("8");
    reveal_strlit("9");
    if n >= 10 {
        lemma_decimal_text_len(n / 10);
    }
}

/// Appends `n` in decimal to `out`.
pub fn push_decimal(out: &mut String, n: u64)
    ensures
        final(out)@ == old(out)@ + decimal_text(n as nat),
    decreases n,
{
    if n >= 10 {
        push_decimal(out, n / 10);
    }
    out.append(digit_str(n % 10));
    proof {
        if n >= 10 {
            assert(decimal_text(n as nat) == decimal_text((n / 10) as nat) + digit_text((n % 10) as int));
        }
    }
}

/// `n` in decimal.
pub fn decimal_string(n: u64) -> (r: String)
    ensures
        r@ == decimal_text(n as nat),
{
    let mut r = String::new();
    push_decimal(&mut r, n);
    proof {
        assert(r@ =~= decimal_text(n as nat));
    }
    r
}

/// `k` zero characters.
pub open spec fn zeros(k: nat) -> Seq<char> {
    Seq::new(k, |i: int| '0')
}

/// `n` in decimal, with leading zeros up to `width` characters.
pub open spec fn padded_decimal(n: nat, width: nat) -> Seq<char> {
    let d = decimal_text(n);
    if d.len() < width { zeros((width - d.len()) as nat) + d } else { d }
}

/// Appends `n` in decimal to `out`, with leading zeros up to `width`
/// characters.
pub fn push_padded_decimal(out: &mut String, n: u64, width: usize)
    ensures
        final(out)@ == old(out)@ + padded_decimal(n as nat, width as nat),
{
    let d = decimal_string(n);
    let len = d.unicode_len();
    let ghost start = out@;
    if len < width {
        let mut k: usize = 0;
        while k < width - len
            invariant
                len < width,
                k <= width - len,
                out@ == start + zeros(k as nat),
            decreases width - len - k,
        {
            let ghost before = out@;
            out.append("0");
            proof {
                reveal_strlit("0");
                assert(zeros((k + 1) as nat) =~= zeros(k as nat).push('0'));
                assert(out@ =~= start + zeros((k + 1) as nat));
            }
            k = k + 1;
        }
    }
    let ghost mid = out@;
    out.append(d.as_str());
    proof {
        if len < width {
            assert(out@ =~= start + (zeros((width - len) as nat) + d@));
        } else {
            assert(out@ =~= start + d@);
        }
    }
}

/// A year as the chrono `%Y` specifier writes it: four digits at least, with
/// a sign outside 0..=9999.
pub open spec fn year_text(y: int) -> Seq<char> {
    if 0 <= y <= 9999 {
        padded_decimal(y as nat, 4)
    } else if y < 0 {
        "-"@ + padded_decimal((-y) as nat, 4)
    } else {
        "+"@ + padded_decimal(y as nat, 4)
    }
}

/// Appends `y` as `year_text` writes it.
pub fn push_year(out: &mut String, y: i32)
    ensures
        final(out)@ == old(out)@ + year_text(y as int),
{
    let ghost start = out@;
    if 0 <= y && y <= 9999 {
        push_padded_decimal(out, y as u64, 4);
    } else if y < 0 {
        out.append("-");
        let m: i64 = -(y as i64);
        push_padded_decimal(out, m as u64, 4);
        proof {
            reveal_strlit("-");
            assert(out@ =~= start + year_text(y as int));
        }
    } else {
        out.append("+");
        push_padded_decimal(out, y as u64, 4);
        proof {
            reveal_strlit("+");
            assert(out@ =~= start + year_text(y as int));
        }
    }
}

/// `b` as `{}` prints it.
pub open spec fn bool_text(b: bool) -> Seq<char> {
    if b { "true"@ } else { "false"@ }
}

pub fn bool_str(b: bool) -> (r: &'static str)
    ensures
        r@ == bool_text(b),
{
    if b { "true" } else { "false" }
}

/// The characters of `s`.
pub fn chars_of(s: &str) -> (r: Vec<char>)
    ensures
        r@ == s@,
{
    let n = s.unicode_len();
    let mut r: Vec<char> = Vec::new();
    for i in 0..n
        invariant
            n == s@.len(),
            r@ == s@.take(i as int),
    {
        r.push(s.get_char(i));
        proof {
            assert(s@.take(i + 1) == s@.take(i as int).push(s@[i as int]));
        }
    }
    proof {
        assert(s@.take(n as int) == s@);
    }
    r
}

/// `needle` occurs in `haystack` as a run of consecutive characters.
pub open spec fn seq_contains(haystack: Seq<char>, needle: Seq<char>) -> bool {
    exists|i: int| 0 <= i && i + needle.len() <= haystack.len() && #[trigger] haystack.subrange(i, i + needle.len()) == needle
}

/// Whether `needle` occurs in `haystack`.
pub fn str_contains(haystack: &str, needle: &str) -> (r: bool)
    ensures
        r == seq_contains(haystack@, needle@),
{
    let h = chars_of(haystack);
    let nd = chars_of(needle);
    let hl = h.len();
    let nl = nd.len();
    if nl > hl {
        return false;
    }
    let mut i: usize = 0;
    while i <= hl - nl
        invariant
            h@ == haystack@,
            nd@ == needle@,
            hl == h.len(),
            nl == nd.len(),
            nl <= hl,
            i <= hl - nl + 1,
            forall|k: int| 0 <= k < i ==> #[trigger] h@.subrange(k, k + nl) != nd@,
        decreases hl - i,
    {
        let mut j: usize = 0;
        while j < nl && h[i + j] == nd[j]
            invariant
                i + nl <= hl,
                hl == h.len(),
                nl == nd.len(),
                j <= nl,
                forall|m: int| 0 <= m < j ==> h@[i + m] == nd@[m],
            decreases nl - j,
        {
            j = j + 1;
        }
        if j == nl {
            proof {
                assert(h@.subrange(i as int, i + nl) =~= nd@);
            }
            return true;
        }
        proof {
            assert(h@.subrange(i as int, i + nl)[j as int] != nd@[j as int]);
        }
        i = i + 1;
    }
    proof {
        assert forall|k: int| 0 <= k && k + needle@.len() <= haystack@.len() implies #[trigger] haystack@.subrange(k, k + needle@.len()) != needle@ by {
            assert(k < i);
        }
    }
    false
}

/// The lower-case form of `s` as `str::to_lowercase` produces it (Unicode
/// lower-casing, which can change the length of the text).
pub uninterp spec fn lowercase(s: Seq<char>) -> Seq<char>;

/// `str::to_lowercase`: returns the Unicode lower-case form of `s`; the
/// contract only names that form.
#[verifier::external_body]
pub(crate) fn to_lower(s: &str) -> (r: String)
    ensures
        r@ == lowercase(s@),
{
    s.to_lowercase()
}

} // verus!
