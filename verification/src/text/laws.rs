//! What holds of texts.
use vstd::prelude::*;

verus! {

broadcast use vstd::string::group_string_axioms;

/// Small letters are what the ASCII capitals become, by the same distance for all of them; every
/// other character stays.
pub proof fn law_capitals_become_small(c: char)
    ensures
        'A' <= c <= 'Z' ==> super::lower_char(c) as u32 == c as u32 + 32,
        !('A' <= c <= 'Z') ==> super::lower_char(c) == c,
{
    if 'A' <= c <= 'Z' {
        let b = c as u8;
        assert(65 <= b <= 90);
    }
}

/// Making letters small changes no length, and goes character by character.
pub proof fn law_small_letters_stand_where_they_stood(s: Seq<char>, k: int)
    requires
        0 <= k < s.len(),
    ensures
        super::lower(s).len() == s.len(),
        super::lower(s)[k] == super::lower_char(s[k]),
{
}

/// Where two texts begin alike, their first different characters decide which comes first, and
/// what is a beginning of the other comes before it.
pub proof fn law_texts_are_ordered_by_their_first_difference(a: Seq<char>, b: Seq<char>, n: int)
    requires
        0 <= n <= a.len(),
        n < b.len(),
        a.take(n) == b.take(n),
        n == a.len() || a[n] < b[n],
    ensures
        super::text_less(a, b),
        !super::text_less(b, a),
    decreases n,
{
    if n > 0 {
        assert(a[0] == a.take(n)[0] && b[0] == b.take(n)[0]);
        let c = a.drop_first();
        let d = b.drop_first();
        assert(c.take(n - 1) =~= a.take(n).drop_first());
        assert(d.take(n - 1) =~= b.take(n).drop_first());
        law_texts_are_ordered_by_their_first_difference(c, d, n - 1);
    }
}

/// Trimming takes white space off both ends and nothing else.
pub proof fn law_trimming_takes_white_space_off_the_ends(s: Seq<char>) -> (r: (int, int))
    ensures
        0 <= r.0 <= r.1 <= s.len(),
        super::trimmed(s) == s.subrange(r.0, r.1),
        forall|k: int| 0 <= k < r.0 ==> super::is_white(#[trigger] s[k]),
        forall|k: int| r.1 <= k < s.len() ==> super::is_white(#[trigger] s[k]),
        r.0 < r.1 ==> !super::is_white(s[r.0]) && !super::is_white(s[r.1 - 1]),
{
    let a = lemma_front(s);
    let t = s.skip(a);
    let b = lemma_back(t);
    assert(super::trimmed(s) =~= s.subrange(a, a + b));
    assert forall|k: int| a + b <= k < s.len() implies super::is_white(#[trigger] s[k]) by {
        assert(t[k - a] == s[k]);
    }
    if b > 0 {
        assert(t[b - 1] == s[a + b - 1]);
        assert(t[0] == s[a]);
    }
    (a, a + b)
}

proof fn lemma_front(s: Seq<char>) -> (a: int)
    ensures
        0 <= a <= s.len(),
        super::trimmed_front(s) == s.skip(a),
        forall|k: int| 0 <= k < a ==> super::is_white(#[trigger] s[k]),
        a < s.len() ==> !super::is_white(s[a]),
    decreases s.len(),
{
    if s.len() > 0 && super::is_white(s[0]) {
        let t = s.drop_first();
        let a = lemma_front(t);
        assert(t.skip(a) =~= s.skip(a + 1));
        assert forall|k: int| 0 <= k < a + 1 implies super::is_white(#[trigger] s[k]) by {
            if k > 0 {
                assert(t[k - 1] == s[k]);
            }
        }
        if a < t.len() {
            assert(t[a] == s[a + 1]);
        }
        a + 1
    } else {
        assert(s.skip(0) =~= s);
        0
    }
}

proof fn lemma_back(s: Seq<char>) -> (b: int)
    ensures
        0 <= b <= s.len(),
        super::trimmed_back(s) == s.take(b),
        forall|k: int| b <= k < s.len() ==> super::is_white(#[trigger] s[k]),
        b > 0 ==> !super::is_white(s[b - 1]),
    decreases s.len(),
{
    if s.len() > 0 && super::is_white(s.last()) {
        let t = s.drop_last();
        let b = lemma_back(t);
        assert(t.take(b) =~= s.take(b));
        assert forall|k: int| b <= k < s.len() implies super::is_white(#[trigger] s[k]) by {
            if k < t.len() {
                assert(t[k] == s[k]);
            }
        }
        if b > 0 {
            assert(t[b - 1] == s[b - 1]);
        }
        b
    } else {
        assert(s.take(s.len() as int) =~= s);
        s.len() as int
    }
}

/// Padding only adds spaces at the end, as many as are wanting.
pub proof fn law_padding_adds_spaces_at_the_end(s: Seq<char>, width: nat)
    ensures
        super::padded(s, width).len() == if s.len() < width {
            width
        } else {
            s.len()
        },
        super::padded(s, width).take(s.len() as int) == s,
        forall|k: int|
            s.len() <= k < super::padded(s, width).len() ==> (#[trigger] super::padded(s, width)[k])
                == ' ',
{
    assert(super::padded(s, width).take(s.len() as int) =~= s);
}

/// The first bytes of a text are a beginning of it: all of it where it is not longer, or else one
/// that takes up that many bytes, where there is one.
pub proof fn law_first_bytes_are_a_beginning(s: Seq<char>, n: nat)
    ensures
        super::byte_len(s) <= n ==> super::head(s, n) == Some(s),
        super::head(s, n) matches Some(h) ==> {
            &&& h.len() <= s.len()
            &&& s.take(h.len() as int) == h
            &&& h == s || super::byte_len(h) == n
        },
        super::head(s, n) is None <==> super::byte_len(s) > n && forall|k: int|
            0 <= k <= s.len() ==> super::byte_len(#[trigger] s.take(k)) != n,
{
    assert(s.take(s.len() as int) =~= s);
    if super::byte_len(s) > n && exists|k: int| #[trigger] super::cut_at(s, n, k) {
        let k = choose|k: int| #[trigger] super::cut_at(s, n, k);
        assert(s.take(k).len() == k);
    } else if super::byte_len(s) > n {
        assert forall|k: int| 0 <= k <= s.len() implies super::byte_len(#[trigger] s.take(k))
            != n by {
            assert(!super::cut_at(s, n, k));
        }
    }
}

/// A text that is put together holds each of its parts.
pub proof fn law_what_is_put_together_holds_its_parts(parts: Seq<Seq<char>>, k: int)
    requires
        0 <= k < parts.len(),
    ensures
        super::has_part(super::concat(parts), parts[k]),
    decreases parts.len(),
{
    let fewer = parts.drop_last();
    let whole = super::concat(parts);
    if k < fewer.len() {
        law_what_is_put_together_holds_its_parts(fewer, k);
        assert(fewer[k] == parts[k]);
        lemma_part_of_longer(Seq::empty(), super::concat(fewer), parts.last(), parts[k]);
        assert(Seq::<char>::empty() + super::concat(fewer) + parts.last() =~= whole);
    } else {
        let at = super::concat(fewer).len() as int;
        assert(whole.subrange(at, at + parts[k].len()) =~= parts[k]);
        assert(super::occurs_at(whole, parts[k], at));
    }
}

/// What a text holds, every text around it holds.
pub proof fn lemma_part_of_longer(
    front: Seq<char>,
    middle: Seq<char>,
    back: Seq<char>,
    part: Seq<char>,
)
    requires
        super::has_part(middle, part),
    ensures
        super::has_part(front + middle + back, part),
{
    let whole = front + middle + back;
    let at = choose|at: int| #[trigger] super::occurs_at(middle, part, at);
    let n = front.len() + at;
    assert(whole.subrange(n, n + part.len()) =~= middle.subrange(at, at + part.len()));
    assert(super::occurs_at(whole, part, n));
}

// --- numbers -----------------------------------------------------------------------------------

/// The digits of a number are digits, and they stand for it.
pub(crate) proof fn lemma_decimal(n: nat)
    ensures
        super::all_digits(super::decimal(n)),
        super::digits_value(super::decimal(n)) == n,
        super::decimal(n).len() > 1 ==> super::decimal(n)[0] != '0',
    decreases n,
{
    let d = super::decimal(n);
    let last = n % 10;
    assert(super::digit_char(last) as u8 == 48 + last);
    assert(super::is_digit(super::digit_char(last)));
    assert(super::digit_value(super::digit_char(last)) == last);
    if n < 10 {
        assert(d =~= seq![super::digit_char(n)]);
        assert(d.drop_last() =~= Seq::<char>::empty());
        assert(super::digits_value(d.drop_last()) == 0);
    } else {
        lemma_decimal(n / 10);
        let front = super::decimal(n / 10);
        assert(d.drop_last() =~= front);
        assert forall|k: int| 0 <= k < d.len() implies super::is_digit(#[trigger] d[k]) by {
            if k < front.len() {
                assert(d[k] == front[k]);
            }
        }
        assert(d[0] == front[0]);
        if front.len() == 1 {
            let m = n / 10;
            if m >= 10 {
                assert(super::decimal(m / 10).len() >= 1) by {
                    lemma_decimal(m / 10);
                }
            }
            assert(m < 10);
            assert(super::digit_char(m) as u8 == 48 + m);
        }
    }
}

/// A number reads back from how it is written, and no leading zero is written.
pub proof fn law_numbers_read_back(n: i64)
    ensures
        super::number_i64(super::decimal_int(n as int)) == Some(n),
        super::whole_number(super::decimal_int(n as int)) == Some(n as int),
{
    let d = super::decimal_int(n as int);
    if n < 0 {
        lemma_decimal((-n) as nat);
        assert(d.skip(1) =~= super::decimal((-n) as nat));
    } else {
        lemma_decimal(n as nat);
        assert(super::is_digit(d[0]));
    }
}

/// What is no number is not read as one: a character other than a digit behind the sign, or no
/// digit at all.
pub proof fn law_only_digits_make_a_number(s: Seq<char>, k: int)
    requires
        s.len() == 0 || (0 <= k < s.len() && !('0' <= s[k] <= '9') && (k > 0 || (s[k] != '-' && s[k]
            != '+')) || (s.len() == 1 && (s[0] == '-' || s[0] == '+'))),
    ensures
        super::whole_number(s) is None,
        super::number_i64(s) is None,
{
    if s.len() > 1 && (s[0] == '-' || s[0] == '+') {
        assert(s.skip(1)[k - 1] == s[k]);
    }
}

// --- patterns ----------------------------------------------------------------------------------

/// A pattern without `%` matches the texts of its length that have its characters, in either case,
/// where it has no `_`.
pub proof fn law_a_pattern_without_runs_matches_by_place(p: Seq<char>, s: Seq<char>)
    requires
        forall|k: int| 0 <= k < p.len() ==> (#[trigger] p[k]) != '%',
    ensures
        super::like(p, s) <==> p.len() == s.len() && forall|k: int|
            0 <= k < p.len() ==> (#[trigger] p[k]) == '_' || super::lower_char(p[k])
                == super::lower_char(s[k]),
    decreases p.len(),
{
    if p.len() > 0 && s.len() > 0 {
        let q = p.drop_first();
        let t = s.drop_first();
        assert forall|k: int| 0 <= k < q.len() implies (#[trigger] q[k]) != '%' by {
            assert(q[k] == p[k + 1]);
        }
        law_a_pattern_without_runs_matches_by_place(q, t);
        if super::like(p, s) {
            assert forall|k: int| 0 <= k < p.len() implies (#[trigger] p[k]) == '_'
                || super::lower_char(p[k]) == super::lower_char(s[k]) by {
                if k > 0 {
                    assert(q[k - 1] == p[k]);
                    assert(t[k - 1] == s[k]);
                }
            }
        }
        if p.len() == s.len() && forall|k: int|
            0 <= k < p.len() ==> (#[trigger] p[k]) == '_' || super::lower_char(p[k])
                == super::lower_char(s[k]) {
            assert forall|k: int| 0 <= k < q.len() implies (#[trigger] q[k]) == '_'
                || super::lower_char(q[k]) == super::lower_char(t[k]) by {
                assert(q[k] == p[k + 1]);
                assert(t[k] == s[k + 1]);
            }
            assert(p[0] == '_' || super::lower_char(p[0]) == super::lower_char(s[0]));
        }
    }
}

/// `%` at the beginning of a pattern matches any beginning of a text.
pub proof fn law_a_run_matches_any_beginning(p: Seq<char>, s: Seq<char>)
    ensures
        super::like(seq!['%'] + p, s) <==> exists|n: int|
            0 <= n <= s.len() && super::like(p, #[trigger] s.skip(n)),
    decreases s.len(),
{
    let pattern = seq!['%'] + p;
    assert(pattern.drop_first() =~= p);
    assert(s.skip(0) =~= s);
    if s.len() > 0 {
        let t = s.drop_first();
        law_a_run_matches_any_beginning(p, t);
        if exists|n: int| 0 <= n <= t.len() && super::like(p, #[trigger] t.skip(n)) {
            let n = choose|n: int| 0 <= n <= t.len() && super::like(p, #[trigger] t.skip(n));
            assert(t.skip(n) =~= s.skip(n + 1));
        }
        if exists|n: int| 0 <= n <= s.len() && super::like(p, #[trigger] s.skip(n)) {
            let n = choose|n: int| 0 <= n <= s.len() && super::like(p, #[trigger] s.skip(n));
            if n > 0 {
                assert(t.skip(n - 1) =~= s.skip(n));
            }
        }
    } else {
        assert forall|n: int| 0 <= n <= s.len() implies #[trigger] s.skip(n) == s by {
            assert(s.skip(n) =~= s);
        }
    }
}

/// Spaces, tabs and line ends are white space; letters, digits and signs are not.
pub proof fn law_what_counts_as_white_space(c: char)
    ensures
        c == ' ' || c == '\t' || c == '\n' || c == '\r' ==> super::is_white(c),
        'a' <= c <= 'z' || 'A' <= c <= 'Z' || '0' <= c <= '9' || c == '-' || c == '+' || c == '/'
            || c == '.' || c == '_' ==> !super::is_white(c),
{
}

/// Digits are read from the left, each counting ten times what follows it; a sign before them is
/// taken for what it is.
pub proof fn law_digits_are_read_from_the_left(s: Seq<char>, c: char)
    requires
        '0' <= c <= '9',
    ensures
        super::digits_value(s.push(c)) == super::digits_value(s) * 10 + (c as u32 - '0' as u32),
        super::all_digits(s) ==> super::whole_number(s) == Some(super::digits_value(s) as int),
        super::all_digits(s) ==> super::whole_number(seq!['+'] + s) == Some(
            super::digits_value(s) as int,
        ),
        super::all_digits(s) ==> super::whole_number(seq!['-'] + s) == Some(
            -super::digits_value(s),
        ),
{
    assert(s.push(c).drop_last() =~= s);
    if super::all_digits(s) {
        assert(super::is_digit(s[0]));
        assert((seq!['+'] + s).skip(1) =~= s);
        assert((seq!['-'] + s).skip(1) =~= s);
    }
}

/// A text of ASCII characters takes up as many bytes as it has characters; any other character
/// takes up more.
pub proof fn law_ascii_takes_up_one_byte_each(s: Seq<char>)
    ensures
        (forall|k: int| 0 <= k < s.len() ==> (#[trigger] s[k]) as u32 <= 127) <==> super::byte_len(s)
            == s.len(),
        super::byte_len(s) >= s.len(),
    decreases s.len(),
{
    if s.len() > 0 {
        let t = s.drop_last();
        law_ascii_takes_up_one_byte_each(t);
        assert(forall|k: int| 0 <= k < t.len() ==> #[trigger] t[k] == s[k]);
        assert(s[s.len() - 1] == s.last());
        if forall|k: int| 0 <= k < s.len() ==> (#[trigger] s[k]) as u32 <= 127 {
            assert forall|k: int| 0 <= k < t.len() implies (#[trigger] t[k]) as u32 <= 127 by {
                assert(s[k] as u32 <= 127);
            }
        }
        if super::byte_len(s) == s.len() {
            assert forall|k: int| 0 <= k < s.len() implies (#[trigger] s[k]) as u32 <= 127 by {
                if k < t.len() {
                    assert(t[k] as u32 <= 127);
                }
            }
        }
    }
}

} // verus!
