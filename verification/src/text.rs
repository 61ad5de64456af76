//! Character-level string helpers: joining, splitting, trimming and decimal
//! formatting, each specified over `Seq<char>` views.
use vstd::prelude::*;
use vstd::string::*;

verus! {

/// Whitespace as the source language understands it.
pub open spec fn is_space(c: char) -> bool {
    c == ' ' || c == '\t' || c == '\n' || c == '\r'
}

pub open spec fn is_digit(c: char) -> bool {
    48 <= c as u32 <= 57
}

/// Letters and underscores: the identifier alphabet.
pub open spec fn is_ident_char(c: char) -> bool {
    (65 <= c as u32 <= 90) || (97 <= c as u32 <= 122) || c as u32 == 95
}

pub open spec fn digit_val(c: char) -> int {
    c as u32 - 48
}

pub open spec fn digit_char(d: int) -> char {
    if d == 0 {
        '0'
    } else if d == 1 {
        '1'
    } else if d == 2 {
        '2'
    } else if d == 3 {
        '3'
    } else if d == 4 {
        '4'
    } else if d == 5 {
        '5'
    } else if d == 6 {
        '6'
    } else if d == 7 {
        '7'
    } else if d == 8 {
        '8'
    } else {
        '9'
    }
}

/// Decimal text of a nonnegative integer, most significant digit first.
pub open spec fn spec_u64_str(n: nat) -> Seq<char>
    decreases n,
{
    if n < 10 {
        seq![digit_char(n as int)]
    } else {
        spec_u64_str(n / 10).push(digit_char((n % 10) as int))
    }
}

/// Decimal text of a signed integer.
pub open spec fn spec_i64_str(n: int) -> Seq<char> {
    if n < 0 {
        seq!['-'] + spec_u64_str((-n) as nat)
    } else {
        spec_u64_str(n as nat)
    }
}

/// Value of a digit string, most significant digit first.
pub open spec fn spec_digits_val(s: Seq<char>) -> int
    decreases s.len(),
{
    if s.len() == 0 {
        0
    } else {
        spec_digits_val(s.drop_last()) * 10 + digit_val(s.last())
    }
}

/// The elements of `parts` in order with `sep` between each adjacent pair.
pub open spec fn spec_join(parts: Seq<Seq<char>>, sep: Seq<char>) -> Seq<char>
    decreases parts.len(),
{
    if parts.len() == 0 {
        Seq::empty()
    } else if parts.len() == 1 {
        parts[0]
    } else {
        spec_join(parts.drop_last(), sep) + sep + parts.last()
    }
}

fn digit_char_of(d: u64) -> (c: char)
    requires
        d < 10,
    ensures
        c == digit_char(d as int),
{
    match d {
        0 => '0',
        1 => '1',
        2 => '2',
        3 => '3',
        4 => '4',
        5 => '5',
        6 => '6',
        7 => '7',
        8 => '8',
        _ => '9',
    }
}

/// Relies on `String::push`: appends exactly the one character.
#[verifier::external_body]
pub fn push_char(s: &mut String, c: char)
    ensures
        final(s)@ == old(s)@.push(c),
{
    s.push(c)
}

/// The characters of `s` as a vector.
pub fn to_char_vec(s: &str) -> (r: Vec<char>)
    ensures
        r@ == s@,
{
    let n = s.unicode_len();
    let mut r: Vec<char> = Vec::new();
    let mut i: usize = 0;
    while i < n
        invariant
            n == s@.len(),
            i <= n,
            r@ =~= s@.take(i as int),
        decreases n - i,
    {
        r.push(s.get_char(i));
        i = i + 1;
    }
    assert(r@ =~= s@);
    r
}

/// A string holding exactly the characters of `v`.
pub fn from_chars(v: &Vec<char>) -> (r: String)
    ensures
        r@ == v@,
{
    let mut r = String::new();
    let mut i: usize = 0;
    while i < v.len()
        invariant
            i <= v.len(),
            r@ =~= v@.take(i as int),
        decreases v.len() - i,
    {
        push_char(&mut r, v[i]);
        i = i + 1;
    }
    assert(r@ =~= v@);
    r
}

pub fn u64_to_string(n: u64) -> (r: String)
    ensures
        r@ == spec_u64_str(n as nat),
{
    let mut digits: Vec<char> = Vec::new();
    let mut m: u64 = n;
    assert(spec_u64_str(n as nat) =~= spec_u64_str(m as nat) + digits@.reverse());
    while m >= 10
        invariant
            spec_u64_str(n as nat) == spec_u64_str(m as nat) + digits@.reverse(),
        decreases m,
    {
        let d = m % 10;
        let ghost old_digits = digits@;
        digits.push(digit_char_of(d));
        proof {
            assert(digits@.reverse() =~= seq![digit_char(d as int)] + old_digits.reverse());
            assert(spec_u64_str(m as nat) == spec_u64_str((m / 10) as nat).push(
                digit_char((m % 10) as int),
            ));
            assert(spec_u64_str((m / 10) as nat).push(digit_char(d as int)) + old_digits.reverse()
                =~= spec_u64_str((m / 10) as nat) + (seq![digit_char(d as int)]
                + old_digits.reverse()));
        }
        m = m / 10;
    }
    let ghost old_digits = digits@;
    digits.push(digit_char_of(m));
    proof {
        assert(digits@.reverse() =~= seq![digit_char(m as int)] + old_digits.reverse());
        assert(spec_u64_str(m as nat) =~= seq![digit_char(m as int)]);
        assert(spec_u64_str(n as nat) =~= digits@.reverse());
    }
    let mut out = String::new();
    let mut j: usize = digits.len();
    while j > 0
        invariant
            j <= digits.len(),
            out@ =~= digits@.subrange(j as int, digits@.len() as int).reverse(),
        decreases j,
    {
        j = j - 1;
        push_char(&mut out, digits[j]);
        proof {
            assert(out@ =~= digits@.subrange(j as int, digits@.len() as int).reverse());
        }
    }
    proof {
        assert(digits@.subrange(0, digits@.len() as int) =~= digits@);
        assert(out@ =~= spec_u64_str(n as nat));
    }
    out
}

pub fn i64_to_string(n: i64) -> (r: String)
    ensures
        r@ == spec_i64_str(n as int),
{
    if n >= 0 {
        u64_to_string(n as u64)
    } else {
        let mag: u64 = if n == i64::MIN {
            9223372036854775808u64
        } else {
            (-n) as u64
        };
        let mut out = String::new();
        push_char(&mut out, '-');
        let tail = u64_to_string(mag);
        out.append(tail.as_str());
        proof {
            assert(out@ =~= seq!['-'] + spec_u64_str(mag as nat));
        }
        out
    }
}

/// Joins the strings with `sep` between each adjacent pair.
pub fn join_strings(parts: &Vec<String>, sep: &str) -> (r: String)
    ensures
        r@ == spec_join(parts@.map_values(|p: String| p@), sep@),
{
    let ghost views = parts@.map_values(|p: String| p@);
    let mut r = String::new();
    let mut i: usize = 0;
    assert(r@ =~= spec_join(views.take(0), sep@));
    while i < parts.len()
        invariant
            i <= parts.len(),
            views == parts@.map_values(|p: String| p@),
            views.len() == parts@.len(),
            r@ == spec_join(views.take(i as int), sep@),
        decreases parts.len() - i,
    {
        if i > 0 {
            r.append(sep);
        }
        r.append(parts[i].as_str());
        proof {
            assert(views.take(i + 1).drop_last() =~= views.take(i as int));
            assert(views.take(i + 1).last() == views[i as int]);
            if i > 0 {
                assert(r@ =~= spec_join(views.take(i + 1), sep@));
            } else {
                assert(r@ =~= views[0]);
                assert(r@ =~= spec_join(views.take(1), sep@));
            }
        }
        i = i + 1;
    }
    proof {
        assert(views.take(parts@.len() as int) =~= views);
    }
    r
}

/// True exactly when the two strings hold the same characters.
pub fn str_eq(a: &str, b: &str) -> (r: bool)
    ensures
        r == (a@ == b@),
{
    let na = a.unicode_len();
    let nb = b.unicode_len();
    if na != nb {
        proof {
            assert(a@ != b@);
        }
        return false;
    }
    let mut i: usize = 0;
    while i < na
        invariant
            na == a@.len(),
            na == b@.len(),
            i <= na,
            forall|j: int| 0 <= j < i ==> a@[j] == b@[j],
        decreases na - i,
    {
        if a.get_char(i) != b.get_char(i) {
            proof {
                assert(a@[i as int] != b@[i as int]);
            }
            return false;
        }
        i = i + 1;
    }
    proof {
        assert(a@ =~= b@);
    }
    true
}

/// Splits at every occurrence of `sep`; adjacent separators give empty parts.
pub open spec fn spec_split(s: Seq<char>, sep: char) -> Seq<Seq<char>>
    decreases s.len(),
{
    if s.len() == 0 {
        seq![Seq::empty()]
    } else if s[0] == sep {
        seq![Seq::<char>::empty()] + spec_split(s.skip(1), sep)
    } else {
        let rest = spec_split(s.skip(1), sep);
        seq![seq![s[0]] + rest[0]] + rest.skip(1)
    }
}

pub proof fn lemma_split_len(s: Seq<char>, sep: char)
    ensures
        spec_split(s, sep).len() >= 1,
    decreases s.len(),
{
    if s.len() > 0 {
        lemma_split_len(s.skip(1), sep);
    }
}

/// A string with no separator splits into itself alone.
pub proof fn lemma_split_no_sep(s: Seq<char>, sep: char)
    requires
        forall|j: int| 0 <= j < s.len() ==> s[j] != sep,
    ensures
        spec_split(s, sep) == seq![s],
    decreases s.len(),
{
    if s.len() == 0 {
        assert(spec_split(s, sep) =~~= seq![s]);
    } else {
        lemma_split_no_sep(s.skip(1), sep);
        assert(seq![s[0]] + s.skip(1) =~= s);
        assert(spec_split(s, sep) =~~= seq![s]);
    }
}

/// Splitting at the first separator occurrence peels off one part.
pub proof fn lemma_split_at_first(s: Seq<char>, sep: char, i: int)
    requires
        0 <= i < s.len(),
        s[i] == sep,
        forall|j: int| 0 <= j < i ==> s[j] != sep,
    ensures
        spec_split(s, sep) == seq![s.take(i)] + spec_split(s.skip(i + 1), sep),
    decreases i,
{
    if i == 0 {
        assert(s.take(0) =~= Seq::<char>::empty());
        assert(spec_split(s, sep) =~~= seq![s.take(0)] + spec_split(s.skip(1), sep));
    } else {
        lemma_split_at_first(s.skip(1), sep, i - 1);
        lemma_split_len(s.skip(1).skip(i), sep);
        assert(s.skip(1).take(i - 1) =~= s.take(i).skip(1));
        assert(s.skip(1).skip(i) =~= s.skip(i + 1));
        assert(seq![s[0]] + s.take(i).skip(1) =~= s.take(i));
        assert(spec_split(s, sep) =~~= seq![s.take(i)] + spec_split(s.skip(i + 1), sep));
    }
}

/// First occurrence of `c` at or after `from`, if any.
pub fn find_char(v: &Vec<char>, c: char, from: usize) -> (r: Option<usize>)
    requires
        from <= v@.len(),
    ensures
        match r {
            Some(i) => from <= i < v@.len() && v@[i as int] == c && forall|j: int|
                from <= j < i ==> v@[j] != c,
            None => forall|j: int| from <= j < v@.len() ==> v@[j] != c,
        },
{
    let mut i: usize = from;
    while i < v.len()
        invariant
            from <= i <= v@.len(),
            forall|j: int| from <= j < i ==> v@[j] != c,
        decreases v@.len() - i,
    {
        if v[i] == c {
            return Some(i);
        }
        i = i + 1;
    }
    None
}

/// The characters `v[from..to]` as a string.
pub fn string_range(v: &Vec<char>, from: usize, to: usize) -> (r: String)
    requires
        from <= to <= v@.len(),
    ensures
        r@ == v@.subrange(from as int, to as int),
{
    let mut r = String::new();
    let mut i: usize = from;
    while i < to
        invariant
            from <= i <= to <= v@.len(),
            r@ =~= v@.subrange(from as int, i as int),
        decreases to - i,
    {
        push_char(&mut r, v[i]);
        i = i + 1;
    }
    assert(r@ =~= v@.subrange(from as int, to as int));
    r
}

/// Splits the characters at every `sep`, as `str::split` would.
pub fn split_on_char(v: &Vec<char>, sep: char) -> (r: Vec<String>)
    ensures
        r@.map_values(|p: String| p@) == spec_split(v@, sep),
{
    let mut r: Vec<String> = Vec::new();
    let mut start: usize = 0;
    let n = v.len();
    proof {
        assert(v@.skip(0) =~= v@);
        assert(r@.map_values(|p: String| p@) + spec_split(v@, sep) =~= spec_split(v@, sep));
    }
    loop
        invariant
            n == v@.len(),
            start <= v@.len(),
            spec_split(v@, sep) == r@.map_values(|p: String| p@) + spec_split(
                v@.skip(start as int),
                sep,
            ),
        decreases v@.len() - start,
    {
        let ghost done = r@.map_values(|p: String| p@);
        match find_char(v, sep, start) {
            Some(i) => {
                let part = string_range(v, start, i);
                r.push(part);
                proof {
                    lemma_split_at_first(v@.skip(start as int), sep, i - start);
                    assert(v@.skip(start as int).take(i - start) =~= v@.subrange(
                        start as int,
                        i as int,
                    ));
                    assert(v@.skip(start as int).skip(i - start + 1) =~= v@.skip(i + 1));
                    assert(r@.map_values(|p: String| p@) =~= done + seq![part@]);
                    assert(done + (seq![v@.subrange(start as int, i as int)] + spec_split(
                        v@.skip(i + 1),
                        sep,
                    )) =~= (done + seq![v@.subrange(start as int, i as int)]) + spec_split(
                        v@.skip(i + 1),
                        sep,
                    ));
                }
                start = i + 1;
            },
            None => {
                let part = string_range(v, start, v.len());
                r.push(part);
                proof {
                    assert(v@.skip(start as int) =~= v@.subrange(start as int, v@.len() as int));
                    lemma_split_no_sep(v@.skip(start as int), sep);
                    assert(r@.map_values(|p: String| p@) =~= done + seq![part@]);
                    assert(done + seq![v@.skip(start as int)] =~= spec_split(v@, sep));
                }
                return r;
            },
        }
    }
}

pub open spec fn spec_trim_start(s: Seq<char>) -> Seq<char>
    decreases s.len(),
{
    if s.len() > 0 && is_space(s[0]) {
        spec_trim_start(s.skip(1))
    } else {
        s
    }
}

pub open spec fn spec_trim_end(s: Seq<char>) -> Seq<char>
    decreases s.len(),
{
    if s.len() > 0 && is_space(s.last()) {
        spec_trim_end(s.drop_last())
    } else {
        s
    }
}

/// The string with leading and trailing whitespace removed.
pub open spec fn spec_trim(s: Seq<char>) -> Seq<char> {
    spec_trim_end(spec_trim_start(s))
}

pub proof fn lemma_trim_start_at(s: Seq<char>, a: int)
    requires
        0 <= a <= s.len(),
        forall|j: int| 0 <= j < a ==> is_space(s[j]),
        a == s.len() || !is_space(s[a]),
    ensures
        spec_trim_start(s) == s.skip(a),
    decreases a,
{
    if a == 0 {
        assert(s.skip(0) =~= s);
    } else {
        lemma_trim_start_at(s.skip(1), a - 1);
        assert(s.skip(1).skip(a - 1) =~= s.skip(a));
    }
}

pub proof fn lemma_trim_end_at(s: Seq<char>, b: int)
    requires
        0 <= b <= s.len(),
        forall|j: int| b <= j < s.len() ==> is_space(s[j]),
        b == 0 || !is_space(s[b - 1]),
    ensures
        spec_trim_end(s) == s.take(b),
    decreases s.len() - b,
{
    if b == s.len() {
        assert(s.take(b) =~= s);
    } else {
        lemma_trim_end_at(s.drop_last(), b);
        assert(s.drop_last().take(b) =~= s.take(b));
    }
}

pub fn is_space_char(c: char) -> (r: bool)
    ensures
        r == is_space(c),
{
    c == ' ' || c == '\t' || c == '\n' || c == '\r'
}

/// The characters `v[from..to]` with surrounding whitespace removed.
pub fn trim_range(v: &Vec<char>, from: usize, to: usize) -> (r: String)
    requires
        from <= to <= v@.len(),
    ensures
        r@ == spec_trim(v@.subrange(from as int, to as int)),
{
    let ghost s = v@.subrange(from as int, to as int);
    let mut a: usize = from;
    while a < to && is_space_char(v[a])
        invariant
            from <= a <= to <= v@.len(),
            forall|j: int| from <= j < a ==> is_space(v@[j]),
        decreases to - a,
    {
        a = a + 1;
    }
    proof {
        assert(forall|j: int| 0 <= j < a - from ==> s[j] == v@[j + from] && is_space(s[j]));
        lemma_trim_start_at(s, a - from);
    }
    let mut b: usize = to;
    while b > a && is_space_char(v[b - 1])
        invariant
            from <= a <= b <= to <= v@.len(),
            forall|j: int| b <= j < to ==> is_space(v@[j]),
        decreases b,
    {
        b = b - 1;
    }
    proof {
        let t = s.skip(a - from);
        assert(forall|j: int| b - a <= j < t.len() ==> t[j] == v@[j + a] && is_space(t[j]));
        if b > a {
            assert(t[b - a - 1] == v@[b - 1]);
        }
        lemma_trim_end_at(t, b - a);
        assert(t.take(b - a) =~= v@.subrange(a as int, b as int));
    }
    string_range(v, a, b)
}

/// Whitespace-separated tokens, in order, with no empty tokens.
pub open spec fn spec_split_ws(s: Seq<char>) -> Seq<Seq<char>>
    decreases s.len(),
{
    if s.len() == 0 {
        seq![]
    } else if is_space(s[0]) {
        spec_split_ws(s.skip(1))
    } else if s.len() == 1 || is_space(s[1]) {
        seq![seq![s[0]]] + spec_split_ws(s.skip(1))
    } else {
        let rest = spec_split_ws(s.skip(1));
        seq![seq![s[0]] + rest[0]] + rest.skip(1)
    }
}

pub proof fn lemma_ws_skip_spaces(s: Seq<char>, a: int)
    requires
        0 <= a <= s.len(),
        forall|j: int| 0 <= j < a ==> is_space(s[j]),
    ensures
        spec_split_ws(s) == spec_split_ws(s.skip(a)),
    decreases a,
{
    if a == 0 {
        assert(s.skip(0) =~= s);
    } else {
        lemma_ws_skip_spaces(s.skip(1), a - 1);
        assert(s.skip(1).skip(a - 1) =~= s.skip(a));
    }
}

pub proof fn lemma_ws_take_token(s: Seq<char>, i: int)
    requires
        0 < i <= s.len(),
        forall|j: int| 0 <= j < i ==> !is_space(s[j]),
        i == s.len() || is_space(s[i]),
    ensures
        spec_split_ws(s) == seq![s.take(i)] + spec_split_ws(s.skip(i)),
    decreases i,
{
    if i == 1 {
        assert(s.take(1) =~= seq![s[0]]);
    } else {
        lemma_ws_take_token(s.skip(1), i - 1);
        let rest = spec_split_ws(s.skip(1));
        assert(s.skip(1).take(i - 1) =~= s.take(i).skip(1));
        assert(rest[0] == s.take(i).skip(1));
        assert(seq![s[0]] + s.take(i).skip(1) =~= s.take(i));
        assert(rest.skip(1) == spec_split_ws(s.skip(1).skip(i - 1)));
        assert(s.skip(1).skip(i - 1) =~= s.skip(i));
        assert(spec_split_ws(s) =~~= seq![s.take(i)] + spec_split_ws(s.skip(i)));
    }
}

/// Splits the characters on runs of whitespace, as `str::split_whitespace` would.
pub fn split_whitespace(v: &Vec<char>) -> (r: Vec<String>)
    ensures
        r@.map_values(|p: String| p@) == spec_split_ws(v@),
{
    let mut r: Vec<String> = Vec::new();
    let mut start: usize = 0;
    let n = v.len();
    proof {
        assert(v@.skip(0) =~= v@);
        assert(r@.map_values(|p: String| p@) + spec_split_ws(v@) =~= spec_split_ws(v@));
    }
    loop
        invariant
            n == v@.len(),
            start <= n,
            spec_split_ws(v@) == r@.map_values(|p: String| p@) + spec_split_ws(
                v@.skip(start as int),
            ),
        decreases n - start,
    {
        let ghost done = r@.map_values(|p: String| p@);
        let mut a: usize = start;
        while a < n && is_space_char(v[a])
            invariant
                start <= a <= n,
                n == v@.len(),
                forall|j: int| start <= j < a ==> is_space(v@[j]),
            decreases n - a,
        {
            a = a + 1;
        }
        proof {
            let t = v@.skip(start as int);
            assert(forall|j: int| 0 <= j < a - start ==> t[j] == v@[j + start] && is_space(t[j]));
            lemma_ws_skip_spaces(t, a - start);
            assert(t.skip(a - start) =~= v@.skip(a as int));
        }
        if a == n {
            proof {
                assert(spec_split_ws(v@.skip(a as int)) =~= Seq::<Seq<char>>::empty());
                assert(done + Seq::<Seq<char>>::empty() =~= done);
            }
            return r;
        }
        let mut b: usize = a;
        while b < n && !is_space_char(v[b])
            invariant
                a <= b <= n,
                n == v@.len(),
                forall|j: int| a <= j < b ==> !is_space(v@[j]),
            decreases n - b,
        {
            b = b + 1;
        }
        let part = string_range(v, a, b);
        r.push(part);
        proof {
            let t = v@.skip(a as int);
            assert(forall|j: int| 0 <= j < b - a ==> t[j] == v@[j + a] && !is_space(t[j]));
            assert(b - a > 0);
            if b < n {
                assert(t[b - a] == v@[b as int]);
            }
            lemma_ws_take_token(t, b - a);
            assert(t.take(b - a) =~= v@.subrange(a as int, b as int));
            assert(t.skip(b - a) =~= v@.skip(b as int));
            assert(r@.map_values(|p: String| p@) =~= done + seq![part@]);
            assert(done + (seq![part@] + spec_split_ws(v@.skip(b as int))) =~= (done + seq![part@])
                + spec_split_ws(v@.skip(b as int)));
        }
        start = b;
    }
}

/// Every `}` becomes `};`; all other characters stay.
pub open spec fn spec_replace_brace(s: Seq<char>) -> Seq<char>
    decreases s.len(),
{
    if s.len() == 0 {
        Seq::empty()
    } else if s[0] == '}' {
        seq!['}', ';'] + spec_replace_brace(s.skip(1))
    } else {
        seq![s[0]] + spec_replace_brace(s.skip(1))
    }
}

proof fn lemma_replace_brace_snoc(s: Seq<char>, c: char)
    ensures
        spec_replace_brace(s.push(c)) == spec_replace_brace(s) + (if c == '}' {
            seq!['}', ';']
        } else {
            seq![c]
        }),
    decreases s.len(),
{
    let unit: Seq<char> = if c == '}' {
        seq!['}', ';']
    } else {
        seq![c]
    };
    if s.len() == 0 {
        assert(s.push(c).len() == 1);
        assert(s.push(c)[0] == c);
        assert(s.push(c).skip(1) =~= Seq::<char>::empty());
        assert(spec_replace_brace(s.push(c)) == unit + spec_replace_brace(Seq::<char>::empty()));
        assert(unit + Seq::<char>::empty() =~= Seq::<char>::empty() + unit);
    } else {
        lemma_replace_brace_snoc(s.skip(1), c);
        assert(s.push(c)[0] == s[0]);
        assert(s.push(c).skip(1) =~= s.skip(1).push(c));
        let head: Seq<char> = if s[0] == '}' {
            seq!['}', ';']
        } else {
            seq![s[0]]
        };
        assert(spec_replace_brace(s.push(c)) == head + (spec_replace_brace(s.skip(1)) + unit));
        assert(head + (spec_replace_brace(s.skip(1)) + unit) =~= (head + spec_replace_brace(
            s.skip(1),
        )) + unit);
        assert(spec_replace_brace(s) == head + spec_replace_brace(s.skip(1)));
    }
}

/// The characters with every `}` replaced by `};`.
pub fn replace_brace(v: &Vec<char>) -> (r: Vec<char>)
    ensures
        r@ == spec_replace_brace(v@),
{
    let mut r: Vec<char> = Vec::new();
    let mut i: usize = 0;
    proof {
        assert(v@.take(0) =~= Seq::<char>::empty());
    }
    while i < v.len()
        invariant
            i <= v@.len(),
            r@ == spec_replace_brace(v@.take(i as int)),
        decreases v@.len() - i,
    {
        let ghost pre = r@;
        let c = v[i];
        r.push(c);
        if c == '}' {
            r.push(';');
        }
        proof {
            lemma_replace_brace_snoc(v@.take(i as int), c);
            assert(v@.take(i + 1) =~= v@.take(i as int).push(c));
            if c == '}' {
                assert(r@ =~= pre + seq!['}', ';']);
            } else {
                assert(r@ =~= pre + seq![c]);
            }
        }
        i = i + 1;
    }
    proof {
        assert(v@.take(v@.len() as int) =~= v@);
    }
    r
}

/// The characters `v[from..to]` as a fresh vector.
pub fn vec_range(v: &Vec<char>, from: usize, to: usize) -> (r: Vec<char>)
    requires
        from <= to <= v@.len(),
    ensures
        r@ == v@.subrange(from as int, to as int),
{
    let mut r: Vec<char> = Vec::new();
    let mut i: usize = from;
    while i < to
        invariant
            from <= i <= to <= v@.len(),
            r@ =~= v@.subrange(from as int, i as int),
        decreases to - i,
    {
        r.push(v[i]);
        i = i + 1;
    }
    assert(r@ =~= v@.subrange(from as int, to as int));
    r
}

/// Splitting distributes over concatenation at a separator.
pub proof fn lemma_split_concat(x: Seq<char>, y: Seq<char>, sep: char)
    ensures
        spec_split(x + seq![sep] + y, sep) == spec_split(x, sep) + spec_split(y, sep),
    decreases x.len(),
{
    if x.len() == 0 {
        assert(x + seq![sep] + y =~= seq![sep] + y);
        assert((seq![sep] + y)[0] == sep);
        assert((seq![sep] + y).skip(1) =~= y);
        assert(spec_split(x, sep) =~= seq![Seq::<char>::empty()]);
        assert(spec_split(x + seq![sep] + y, sep) =~= spec_split(x, sep) + spec_split(y, sep));
    } else {
        lemma_split_concat(x.skip(1), y, sep);
        let w = x + seq![sep] + y;
        assert(w[0] == x[0]);
        assert(w.skip(1) =~= x.skip(1) + seq![sep] + y);
        let restx = spec_split(x.skip(1), sep);
        lemma_split_len(x.skip(1), sep);
        if x[0] == sep {
            assert(spec_split(w, sep) == seq![Seq::<char>::empty()] + spec_split(w.skip(1), sep));
            assert(spec_split(x, sep) == seq![Seq::<char>::empty()] + restx);
            assert(spec_split(w, sep) =~= spec_split(x, sep) + spec_split(y, sep));
        } else {
            let rest = spec_split(w.skip(1), sep);
            assert(rest == restx + spec_split(y, sep));
            assert(rest[0] == restx[0]);
            assert(rest.skip(1) =~= restx.skip(1) + spec_split(y, sep));
            assert(spec_split(w, sep) == seq![seq![w[0]] + rest[0]] + rest.skip(1));
            assert(spec_split(x, sep) == seq![seq![x[0]] + restx[0]] + restx.skip(1));
            assert(spec_split(w, sep) =~= spec_split(x, sep) + spec_split(y, sep));
        }
    }
}

/// Joining one more part appends a separator and the part.
pub proof fn lemma_join_snoc(parts: Seq<Seq<char>>, z: Seq<char>, sep: Seq<char>)
    requires
        parts.len() >= 1,
    ensures
        spec_join(parts.push(z), sep) == spec_join(parts, sep) + sep + z,
{
    assert(parts.push(z).drop_last() =~= parts);
    assert(parts.push(z).last() == z);
}

/// A string with no separator splits into itself alone (public form).
pub proof fn lemma_split_whole(s: Seq<char>, sep: char)
    requires
        forall|j: int| 0 <= j < s.len() ==> s[j] != sep,
    ensures
        spec_split(s, sep) == seq![s],
{
    lemma_split_no_sep(s, sep);
}

/// Copies of all the strings but the first.
pub fn tail_strings(v: &Vec<String>) -> (r: Vec<String>)
    requires
        v@.len() >= 1,
    ensures
        r@.map_values(|s: String| s@) == v@.map_values(|s: String| s@).skip(1),
{
    let mut r: Vec<String> = Vec::new();
    let mut i: usize = 1;
    while i < v.len()
        invariant
            1 <= i <= v@.len(),
            r@.map_values(|s: String| s@) =~= v@.map_values(|s: String| s@).subrange(
                1,
                i as int,
            ),
        decreases v@.len() - i,
    {
        let ghost before = r@.map_values(|s: String| s@);
        r.push(v[i].clone());
        proof {
            assert(r@.map_values(|s: String| s@) =~= before.push(v@[i as int]@));
            assert(v@.map_values(|s: String| s@).subrange(1, i + 1) =~= v@.map_values(
                |s: String| s@,
            ).subrange(1, i as int).push(v@[i as int]@));
        }
        i = i + 1;
    }
    proof {
        assert(r@.map_values(|s: String| s@) =~= v@.map_values(|s: String| s@).skip(1));
    }
    r
}

/// A copy of the vector whose strings equal the originals.
pub fn dup_string_vec(v: &Vec<String>) -> (r: Vec<String>)
    ensures
        r@ == v@,
{
    let mut r: Vec<String> = Vec::new();
    let mut i: usize = 0;
    while i < v.len()
        invariant
            i <= v.len(),
            r@ =~= v@.take(i as int),
        decreases v.len() - i,
    {
        r.push(v[i].clone());
        i = i + 1;
    }
    assert(r@ =~= v@);
    r
}

} // verus!
