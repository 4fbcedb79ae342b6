//! Parsing of the textual settings: unsigned decimal numbers and
//! comma-separated server lists.
use vstd::prelude::*;
use crate::text::{
    chars_of, is_white_space, string_views, trim, trim_chars, trim_end_chars, trim_start_chars,
};

verus! {

broadcast use vstd::string::group_string_axioms;

/// Whether `c` is one of the ASCII digits `0` to `9`.
pub open spec fn is_ascii_digit(c: char) -> bool {
    48 <= (c as u32) <= 57
}

/// The value of a digit character.
pub open spec fn digit_value(c: char) -> nat {
    ((c as u32) - ('0' as u32)) as nat
}

/// The value of a string of decimal digits (most significant first).
pub open spec fn decimal_value(s: Seq<char>) -> nat
    decreases s.len(),
{
    if s.len() == 0 {
        0
    } else {
        decimal_value(s.drop_last()) * 10 + digit_value(s.last())
    }
}

/// Whether every character of `d` is an ASCII digit.
pub open spec fn all_ascii_digits(d: Seq<char>) -> bool {
    forall|i: int| 0 <= i < d.len() ==> is_ascii_digit(#[trigger] d[i])
}

/// The digit part of an unsigned number: `s` without one leading `+`.
pub open spec fn unsigned_digits(s: Seq<char>) -> Seq<char> {
    if s.len() > 0 && s[0] == '+' {
        s.drop_first()
    } else {
        s
    }
}

/// What `str::parse` gives for an unsigned integer type whose largest value is `max`:
/// an optional `+`, then one or more ASCII digits, whose value does not exceed `max`.
pub open spec fn parse_unsigned(s: Seq<char>, max: nat) -> Option<nat> {
    let digits = unsigned_digits(s);
    if digits.len() > 0 && all_ascii_digits(digits) && decimal_value(digits) <= max {
        Some(decimal_value(digits))
    } else {
        None
    }
}

proof fn lemma_decimal_prefix_le(s: Seq<char>, k: int)
    requires
        0 <= k <= s.len(),
        forall|i: int| 0 <= i < s.len() ==> is_ascii_digit(#[trigger] s[i]),
    ensures
        decimal_value(s.take(k)) <= decimal_value(s),
    decreases s.len() - k,
{
    if k < s.len() {
        lemma_decimal_prefix_le(s, k + 1);
        assert(s.take(k + 1).drop_last() =~= s.take(k));
    } else {
        assert(s.take(k) =~= s);
    }
}

fn parse_digits(v: &Vec<char>, start: usize, max: u64) -> (r: Option<u64>)
    requires
        start <= v@.len(),
    ensures
        ({
            let d = v@.subrange(start as int, v@.len() as int);
            match r {
                Some(x) => d.len() > 0 && all_ascii_digits(d) && decimal_value(d) <= max && x
                    == decimal_value(d),
                None => !(d.len() > 0 && all_ascii_digits(d) && decimal_value(d) <= max),
            }
        }),
{
    let n = v.len();
    let ghost d = v@.subrange(start as int, n as int);
    if start == n {
        return None;
    }
    let mut k: usize = start;
    while k < n
        invariant
            start <= k <= n == v@.len(),
            d == v@.subrange(start as int, n as int),
            forall|i: int| 0 <= i < k - start ==> is_ascii_digit(#[trigger] d[i]),
        decreases n - k,
    {
        let cu: u32 = v[k] as u32;
        if !(48 <= cu && cu <= 57) {
            assert(!is_ascii_digit(d[k - start]));
            return None;
        }
        k = k + 1;
    }
    let mut acc: u64 = 0;
    let mut i: usize = start;
    assert(d.take(0) =~= Seq::<char>::empty());
    while i < n
        invariant
            start <= i <= n == v@.len(),
            d == v@.subrange(start as int, n as int),
            forall|j: int| 0 <= j < d.len() ==> is_ascii_digit(#[trigger] d[j]),
            acc == decimal_value(d.take(i - start)),
            acc <= max,
        decreases n - i,
    {
        let c = v[i];
        assert(d[i - start] == c);
        assert(is_ascii_digit(c));
        let cu: u32 = c as u32;
        let digit: u64 = (cu - 48) as u64;
        assert(d.take(i - start + 1).drop_last() =~= d.take(i - start));
        let next = match acc.checked_mul(10) {
            Some(m) => m.checked_add(digit),
            None => None,
        };
        match next {
            Some(x) => {
                if x > max {
                    proof {
                        lemma_decimal_prefix_le(d, i - start + 1);
                    }
                    return None;
                }
                acc = x;
            },
            None => {
                proof {
                    lemma_decimal_prefix_le(d, i - start + 1);
                }
                return None;
            },
        }
        i = i + 1;
    }
    assert(d.take(n - start) =~= d);
    Some(acc)
}

fn parse_bounded(s: &str, max: u64) -> (r: Option<u64>)
    ensures
        r matches Some(x) ==> parse_unsigned(s@, max as nat) == Some(x as nat),
        r is None ==> parse_unsigned(s@, max as nat) is None,
{
    let v = chars_of(s);
    if v.len() > 0 && v[0] == '+' {
        assert(v@.subrange(1, v@.len() as int) =~= unsigned_digits(s@));
        parse_digits(&v, 1, max)
    } else {
        assert(v@.subrange(0, v@.len() as int) =~= unsigned_digits(s@));
        parse_digits(&v, 0, max)
    }
}

/// Parses `s` as a `u64`, accepting exactly what `str::parse::<u64>` accepts.
pub fn parse_u64(s: &str) -> (r: Option<u64>)
    ensures
        match r {
            Some(x) => parse_unsigned(s@, u64::MAX as nat) == Some(x as nat),
            None => parse_unsigned(s@, u64::MAX as nat) is None,
        },
{
    parse_bounded(s, u64::MAX)
}

/// Parses `s` as a `usize`, accepting exactly what `str::parse::<usize>` accepts.
pub fn parse_usize(s: &str) -> (r: Option<usize>)
    ensures
        match r {
            Some(x) => parse_unsigned(s@, usize::MAX as nat) == Some(x as nat),
            None => parse_unsigned(s@, usize::MAX as nat) is None,
        },
{
    match parse_bounded(s, usize::MAX as u64) {
        Some(x) => Some(x as usize),
        None => None,
    }
}

/// The pieces of `s` between commas, as `str::split(',')` yields them
/// (an empty `s` yields one empty piece).
pub open spec fn split_commas(s: Seq<char>) -> Seq<Seq<char>>
    decreases s.len(),
{
    if s.len() == 0 {
        seq![Seq::<char>::empty()]
    } else {
        let prev = split_commas(s.drop_last());
        if s.last() == ',' {
            prev.push(Seq::<char>::empty())
        } else {
            prev.update(prev.len() - 1, prev.last().push(s.last()))
        }
    }
}

/// The trimmed pieces, with the empty ones left out.
pub open spec fn server_entries(pieces: Seq<Seq<char>>) -> Seq<Seq<char>>
    decreases pieces.len(),
{
    if pieces.len() == 0 {
        Seq::<Seq<char>>::empty()
    } else {
        let rest = server_entries(pieces.drop_last());
        let t = trim_chars(pieces.last());
        if t.len() == 0 {
            rest
        } else {
            rest.push(t)
        }
    }
}

/// The server list that a comma-separated setting denotes: each piece between
/// commas, trimmed, empty pieces dropped.
pub open spec fn server_list(raw: Seq<char>) -> Seq<Seq<char>> {
    server_entries(split_commas(raw))
}

/// Whether `s` contains no comma.
pub open spec fn comma_free(s: Seq<char>) -> bool {
    forall|i: int| 0 <= i < s.len() ==> #[trigger] s[i] != ','
}

/// An entry that a server list can hold: non-empty, without commas, and
/// without white space at either end.
pub open spec fn is_clean_entry(s: Seq<char>) -> bool {
    &&& s.len() > 0
    &&& comma_free(s)
    &&& !is_white_space(s[0])
    &&& !is_white_space(s.last())
}

proof fn lemma_split_nonempty(s: Seq<char>)
    ensures
        split_commas(s).len() >= 1,
    decreases s.len(),
{
    if s.len() > 0 {
        lemma_split_nonempty(s.drop_last());
    }
}

proof fn lemma_trim_start_suffix(s: Seq<char>)
    ensures
        trim_start_chars(s) == s.subrange(s.len() - trim_start_chars(s).len(), s.len() as int),
        trim_start_chars(s).len() <= s.len(),
        trim_start_chars(s).len() > 0 ==> !is_white_space(trim_start_chars(s)[0]),
    decreases s.len(),
{
    if s.len() > 0 && is_white_space(s[0]) {
        lemma_trim_start_suffix(s.drop_first());
        let t = trim_start_chars(s.drop_first());
        assert(s.drop_first().subrange(s.drop_first().len() - t.len(), s.drop_first().len() as int)
            =~= s.subrange(s.len() - t.len(), s.len() as int));
    } else {
        assert(s.subrange(0, s.len() as int) =~= s);
    }
}

proof fn lemma_trim_end_prefix(s: Seq<char>)
    ensures
        trim_end_chars(s) == s.subrange(0, trim_end_chars(s).len() as int),
        trim_end_chars(s).len() <= s.len(),
        trim_end_chars(s).len() > 0 ==> !is_white_space(trim_end_chars(s).last()),
    decreases s.len(),
{
    if s.len() > 0 && is_white_space(s.last()) {
        lemma_trim_end_prefix(s.drop_last());
        let t = trim_end_chars(s.drop_last());
        assert(s.drop_last().subrange(0, t.len() as int) =~= s.subrange(0, t.len() as int));
    } else {
        assert(s.subrange(0, s.len() as int) =~= s);
    }
}

/// A trimmed comma-free piece is clean unless it is empty.
proof fn lemma_trim_clean(s: Seq<char>)
    requires
        comma_free(s),
    ensures
        trim_chars(s).len() > 0 ==> is_clean_entry(trim_chars(s)),
{
    lemma_trim_start_suffix(s);
    let a = trim_start_chars(s);
    lemma_trim_end_prefix(a);
    let t = trim_end_chars(a);
    if t.len() > 0 {
        assert(t[0] == a[0]);
        assert forall|i: int| 0 <= i < t.len() implies #[trigger] t[i] != ',' by {
            assert(t[i] == a[i]);
            assert(a[i] == s[s.len() - a.len() + i]);
        }
    }
}

proof fn lemma_split_comma_free(s: Seq<char>)
    ensures
        forall|i: int| 0 <= i < split_commas(s).len() ==> comma_free(#[trigger] split_commas(s)[i]),
    decreases s.len(),
{
    lemma_split_nonempty(s);
    if s.len() > 0 {
        lemma_split_comma_free(s.drop_last());
        lemma_split_nonempty(s.drop_last());
        let prev = split_commas(s.drop_last());
        if s.last() != ',' {
            let last = prev.last().push(s.last());
            assert(comma_free(prev.last()));
            assert(comma_free(last)) by {
                assert forall|k: int| 0 <= k < last.len() implies #[trigger] last[k] != ',' by {
                    if k < prev.last().len() {
                        assert(last[k] == prev.last()[k]);
                    }
                }
            }
            assert forall|i: int| 0 <= i < split_commas(s).len() implies comma_free(
                #[trigger] split_commas(s)[i],
            ) by {
                if i < prev.len() - 1 {
                    assert(split_commas(s)[i] == prev[i]);
                }
            }
        } else {
            assert forall|i: int| 0 <= i < split_commas(s).len() implies comma_free(
                #[trigger] split_commas(s)[i],
            ) by {
                if i < prev.len() {
                    assert(split_commas(s)[i] == prev[i]);
                } else {
                    assert(split_commas(s)[i] =~= Seq::<char>::empty());
                }
            }
        }
    }
}

proof fn lemma_entries_clean(pieces: Seq<Seq<char>>)
    requires
        forall|i: int| 0 <= i < pieces.len() ==> comma_free(#[trigger] pieces[i]),
    ensures
        forall|i: int| 0 <= i < server_entries(pieces).len() ==> is_clean_entry(
            #[trigger] server_entries(pieces)[i],
        ),
    decreases pieces.len(),
{
    if pieces.len() > 0 {
        let init = pieces.drop_last();
        assert forall|i: int| 0 <= i < init.len() implies comma_free(#[trigger] init[i]) by {
            assert(init[i] == pieces[i]);
        }
        lemma_entries_clean(init);
        assert(comma_free(pieces[pieces.len() - 1]));
        lemma_trim_clean(pieces.last());
        let rest = server_entries(init);
        let t = trim_chars(pieces.last());
        if t.len() > 0 {
            assert forall|i: int| 0 <= i < server_entries(pieces).len() implies is_clean_entry(
                #[trigger] server_entries(pieces)[i],
            ) by {
                if i < rest.len() {
                    assert(server_entries(pieces)[i] == rest[i]);
                } else {
                    assert(server_entries(pieces)[i] == t);
                }
            }
        }
    }
}

/// Every entry of a parsed server list is non-empty, free of commas, and has no
/// white space at either end.
pub proof fn law_server_list_entries_clean(raw: Seq<char>)
    ensures
        forall|i: int| 0 <= i < server_list(raw).len() ==> is_clean_entry(#[trigger] server_list(raw)[i]),
{
    lemma_split_comma_free(raw);
    lemma_entries_clean(split_commas(raw));
}

/// Entries joined with commas, as a comma-separated setting is written.
pub open spec fn join_commas(items: Seq<Seq<char>>) -> Seq<char>
    decreases items.len(),
{
    if items.len() == 0 {
        Seq::<char>::empty()
    } else if items.len() == 1 {
        items[0]
    } else {
        join_commas(items.drop_last()) + seq![','] + items.last()
    }
}

proof fn lemma_split_single(b: Seq<char>)
    requires
        comma_free(b),
    ensures
        split_commas(b) == seq![b],
    decreases b.len(),
{
    if b.len() > 0 {
        let init = b.drop_last();
        assert(comma_free(init)) by {
            assert forall|k: int| 0 <= k < init.len() implies #[trigger] init[k] != ',' by {
                assert(init[k] == b[k]);
            }
        }
        lemma_split_single(init);
        assert(b[b.len() - 1] != ',');
        assert(init.push(b.last()) =~= b);
        assert(split_commas(b) =~= seq![b]);
    } else {
        assert(b =~= Seq::<char>::empty());
        assert(split_commas(b) =~= seq![b]);
    }
}

proof fn lemma_split_after_comma(a: Seq<char>, b: Seq<char>)
    requires
        comma_free(b),
    ensures
        split_commas(a + seq![','] + b) == split_commas(a).push(b),
    decreases b.len(),
{
    let whole = a + seq![','] + b;
    if b.len() == 0 {
        assert(b =~= Seq::<char>::empty());
        assert(whole.drop_last() =~= a);
        assert(whole.last() == ',');
        assert(split_commas(whole) =~= split_commas(a).push(b));
    } else {
        let init = b.drop_last();
        assert(comma_free(init)) by {
            assert forall|k: int| 0 <= k < init.len() implies #[trigger] init[k] != ',' by {
                assert(init[k] == b[k]);
            }
        }
        lemma_split_after_comma(a, init);
        assert(whole.drop_last() =~= a + seq![','] + init);
        assert(whole.last() == b[b.len() - 1]);
        assert(b[b.len() - 1] != ',');
        assert(init.push(b.last()) =~= b);
        assert(split_commas(whole) =~= split_commas(a).push(b));
    }
}

proof fn lemma_split_join(items: Seq<Seq<char>>)
    requires
        items.len() >= 1,
        forall|i: int| 0 <= i < items.len() ==> comma_free(#[trigger] items[i]),
    ensures
        split_commas(join_commas(items)) == items,
    decreases items.len(),
{
    if items.len() == 1 {
        lemma_split_single(items[0]);
        assert(seq![items[0]] =~= items);
    } else {
        let init = items.drop_last();
        assert forall|i: int| 0 <= i < init.len() implies comma_free(#[trigger] init[i]) by {
            assert(init[i] == items[i]);
        }
        lemma_split_join(init);
        assert(comma_free(items[items.len() - 1]));
        lemma_split_after_comma(join_commas(init), items.last());
        assert(init.push(items.last()) =~= items);
    }
}

proof fn lemma_entries_of_clean(items: Seq<Seq<char>>)
    requires
        forall|i: int| 0 <= i < items.len() ==> is_clean_entry(#[trigger] items[i]),
    ensures
        server_entries(items) == items,
    decreases items.len(),
{
    if items.len() > 0 {
        let init = items.drop_last();
        assert forall|i: int| 0 <= i < init.len() implies is_clean_entry(#[trigger] init[i]) by {
            assert(init[i] == items[i]);
        }
        lemma_entries_of_clean(init);
        let last = items.last();
        assert(is_clean_entry(items[items.len() - 1]));
        assert(trim_start_chars(last) == last);
        assert(trim_end_chars(last) == last);
        assert(init.push(last) =~= items);
    }
}

/// Writing clean entries as a comma-separated setting and parsing it back gives
/// the same entries, in the same order.
pub proof fn law_server_list_round_trip(items: Seq<Seq<char>>)
    requires
        forall|i: int| 0 <= i < items.len() ==> is_clean_entry(#[trigger] items[i]),
    ensures
        server_list(join_commas(items)) == items,
{
    if items.len() == 0 {
        assert(split_commas(Seq::<char>::empty()) =~= seq![Seq::<char>::empty()]);
        assert(seq![Seq::<char>::empty()].drop_last() =~= Seq::<Seq<char>>::empty());
        assert(trim_start_chars(Seq::<char>::empty()) == Seq::<char>::empty());
        assert(trim_chars(Seq::<char>::empty()).len() == 0);
        let one = seq![Seq::<char>::empty()];
        assert(server_entries(Seq::<Seq<char>>::empty()) == Seq::<Seq<char>>::empty());
        assert(one.last() == Seq::<char>::empty());
        assert(server_entries(one) == server_entries(one.drop_last()));
        assert(server_entries(one) =~= items);
    } else {
        assert forall|i: int| 0 <= i < items.len() implies comma_free(#[trigger] items[i]) by {
            assert(is_clean_entry(items[i]));
        }
        lemma_split_join(items);
        lemma_entries_of_clean(items);
    }
}

/// Splits `raw` at commas, trims each piece and keeps the non-empty ones.
pub fn parse_server_list(raw: &str) -> (r: Vec<String>)
    ensures
        string_views(r@) == server_list(raw@),
        forall|i: int| 0 <= i < r@.len() ==> is_clean_entry(#[trigger] r@[i]@),
{
    proof {
        law_server_list_entries_clean(raw@);
    }
    let v = chars_of(raw);
    let n = v.len();
    let mut out: Vec<String> = Vec::new();
    let mut start: usize = 0;
    let mut i: usize = 0;
    let ghost mut done: Seq<Seq<char>> = Seq::empty();
    assert(raw@.take(0) =~= Seq::<char>::empty());
    assert(raw@.subrange(0, 0) =~= Seq::<char>::empty());
    assert(split_commas(Seq::<char>::empty()) =~= done.push(Seq::<char>::empty()));
    while i < n
        invariant
            n == v@.len() == raw@.len(),
            v@ == raw@,
            start <= i <= n,
            split_commas(raw@.take(i as int)) == done.push(raw@.subrange(start as int, i as int)),
            string_views(out@) == server_entries(done),
        decreases n - i,
    {
        let ghost prev = raw@.take(i as int);
        assert(raw@.take(i + 1).drop_last() =~= prev);
        assert(raw@.take(i + 1).last() == v@[i as int]);
        if v[i] == ',' {
            let piece = trim(raw.substring_char(start, i));
            let ghost whole = raw@.subrange(start as int, i as int);
            if !piece.as_str().is_empty() {
                let ghost before = out@;
                out.push(piece);
                proof {
                    assert(done.push(whole).drop_last() =~= done);
                    assert(string_views(out@) =~= string_views(before).push(trim_chars(whole)));
                }
            } else {
                assert(done.push(whole).drop_last() =~= done);
            }
            proof {
                done = done.push(whole);
                assert(raw@.subrange(i + 1, i + 1) =~= Seq::<char>::empty());
            }
            start = i + 1;
        } else {
            proof {
                lemma_split_nonempty(prev);
                assert(raw@.subrange(start as int, i + 1) =~= raw@.subrange(
                    start as int,
                    i as int,
                ).push(v@[i as int]));
                assert(split_commas(raw@.take(i + 1)) =~= done.push(
                    raw@.subrange(start as int, i + 1),
                ));
            }
        }
        i = i + 1;
    }
    let piece = trim(raw.substring_char(start, n));
    let ghost whole = raw@.subrange(start as int, n as int);
    assert(raw@.take(n as int) =~= raw@);
    assert(done.push(whole).drop_last() =~= done);
    if !piece.as_str().is_empty() {
        let ghost before = out@;
        out.push(piece);
        assert(string_views(out@) =~= string_views(before).push(trim_chars(whole)));
    }
    assert forall|k: int| 0 <= k < out@.len() implies is_clean_entry(#[trigger] out@[k]@) by {
        assert(string_views(out@)[k] == out@[k]@);
        assert(is_clean_entry(server_list(raw@)[k]));
    }
    out
}

} // verus!
