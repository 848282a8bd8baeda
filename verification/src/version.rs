//! Version numbers: parsing dotted version strings and comparing them.

use vstd::prelude::*;

verus! {

/// `c` is an ASCII decimal digit.
pub open spec fn is_digit(c: char) -> bool {
    '0' <= c && c <= '9'
}

/// The value of a decimal digit character.
pub open spec fn digit_value(c: char) -> int {
    c as int - '0' as int
}

/// The value of a string of decimal digits (0 for the empty string).
pub open spec fn digits_value(s: Seq<char>) -> int
    decreases s.len(),
{
    if s.len() == 0 { 0 } else { 10 * digits_value(s.drop_last()) + digit_value(s.last()) }
}

/// Every character of `s` is a digit.
pub open spec fn all_digits(s: Seq<char>) -> bool {
    forall|i: int| 0 <= i < s.len() ==> is_digit(#[trigger] s[i])
}

/// `s` without one leading `+`.
pub open spec fn unsigned_body(s: Seq<char>) -> Seq<char> {
    if s.len() > 0 && s[0] == '+' { s.drop_first() } else { s }
}

/// What `u32::from_str` accepts: an optional `+`, then one or more digits whose
/// value fits in `u32`.
pub open spec fn parse_u32(s: Seq<char>) -> Option<u32> {
    let body = unsigned_body(s);
    if body.len() > 0 && all_digits(body) && digits_value(body) <= u32::MAX {
        Some(digits_value(body) as u32)
    } else {
        None
    }
}

/// `s` cut at every `.`, as `str::split('.')` cuts it (always at least one part).
pub open spec fn split_on_dots(s: Seq<char>) -> Seq<Seq<char>>
    decreases s.len(),
{
    if s.len() == 0 {
        seq![Seq::<char>::empty()]
    } else if s.last() == '.' {
        split_on_dots(s.drop_last()).push(Seq::<char>::empty())
    } else {
        let parts = split_on_dots(s.drop_last());
        parts.update(parts.len() - 1, parts.last().push(s.last()))
    }
}

/// The parts that parse as `u32`, parsed, in order.
pub open spec fn parsed_parts(parts: Seq<Seq<char>>) -> Seq<u32>
    decreases parts.len(),
{
    if parts.len() == 0 {
        Seq::empty()
    } else {
        parsed_parts(parts.drop_last()) + match parse_u32(parts.last()) {
            Some(v) => seq![v],
            None => Seq::<u32>::empty(),
        }
    }
}

/// The numeric components of a version string; parts that are not numbers are skipped.
pub open spec fn version_numbers(s: Seq<char>) -> Seq<u32> {
    parsed_parts(split_on_dots(s))
}

/// Component `i` of `v`, or 0 past its end.
pub open spec fn component(v: Seq<u32>, i: int) -> u32 {
    if 0 <= i < v.len() { v[i] } else { 0 }
}

/// `l` is greater than `c` in the order of zero-padded component sequences.
pub open spec fn components_newer(l: Seq<u32>, c: Seq<u32>) -> bool {
    exists|i: int| #[trigger] first_greater_at(l, c, i)
}

/// Component `i` is the first where `l` and `c` differ, and `l` is greater there.
pub open spec fn first_greater_at(l: Seq<u32>, c: Seq<u32>, i: int) -> bool {
    &&& 0 <= i < l.len() || 0 <= i < c.len()
    &&& forall|j: int| 0 <= j < i ==> #[trigger] component(l, j) == component(c, j)
    &&& component(l, i) > component(c, i)
}

/// Parses `s` as `u32::from_str` does (see `parse_u32`).
pub fn parse_u32_text(s: &str) -> (v: Option<u32>)
    ensures
        v == parse_u32(s@),
{
    let n = s.unicode_len();
    let mut i: usize = 0;
    if n > 0 && s.get_char(0) == '+' {
        i = 1;
    }
    let start = i;
    let ghost body = unsigned_body(s@);
    assert(body =~= s@.skip(start as int));
    if start == n {
        return None;
    }
    let mut val: u64 = 0;
    while i < n
        invariant
            n == s@.len(),
            start <= i <= n,
            body == s@.skip(start as int),
            body == unsigned_body(s@),
            body.len() > 0,
            all_digits(s@.subrange(start as int, i as int)),
            val == digits_value(s@.subrange(start as int, i as int)),
            val <= u32::MAX,
        decreases n - i,
    {
        let c = s.get_char(i);
        let ghost prefix = s@.subrange(start as int, i as int);
        assert(s@.subrange(start as int, i + 1).drop_last() =~= prefix);
        if !(c >= '0' && c <= '9') {
            proof {
                assert(body[i - start] == c);
                assert(!is_digit(body[i - start]));
            }
            return None;
        }
        let d = (c as u32 - '0' as u32) as u64;
        val = val * 10 + d;
        if val > 0xffff_ffff {
            proof {
                if all_digits(body) {
                    lemma_digits_value_prefix(body, i + 1 - start);
                    assert(s@.subrange(start as int, i + 1) =~= body.take(i + 1 - start));
                }
            }
            return None;
        }
        i = i + 1;
    }
    assert(s@.subrange(start as int, n as int) =~= body);
    Some(val as u32)
}

/// The value of a string of digits is at least that of each of its prefixes.
proof fn lemma_digits_value_prefix(s: Seq<char>, k: int)
    requires
        0 <= k <= s.len(),
        all_digits(s),
    ensures
        digits_value(s) >= digits_value(s.take(k)),
        digits_value(s.take(k)) >= 0,
    decreases s.len(),
{
    if k < s.len() {
        assert(s.drop_last().take(k) =~= s.take(k));
        assert(all_digits(s.drop_last()));
        lemma_digits_value_prefix(s.drop_last(), k);
        assert(digits_value(s) >= digits_value(s.drop_last())) by {
            assert(is_digit(s.last()));
        }
    } else if s.len() > 0 {
        assert(s.take(k) =~= s);
        assert(s.drop_last().take(k - 1) =~= s.drop_last());
        lemma_digits_value_prefix(s.drop_last(), k - 1);
    } else {
        assert(s.take(k) =~= s);
    }
}

proof fn lemma_split_nonempty(s: Seq<char>)
    ensures
        split_on_dots(s).len() >= 1,
    decreases s.len(),
{
    if s.len() > 0 {
        lemma_split_nonempty(s.drop_last());
    }
}

/// The numeric components of `s`.
pub fn version_numbers_of(s: &str) -> (numbers: Vec<u32>)
    ensures
        numbers@ == version_numbers(s@),
{
    let n = s.unicode_len();
    let mut numbers: Vec<u32> = Vec::new();
    // The part being read: its length, whether it opened with '+', whether
    // its body is all digits with a value fitting u32, and that value.
    let mut cur_len: usize = 0;
    let mut plus = false;
    let mut ok = true;
    let mut val: u64 = 0;
    let ghost mut cur: Seq<char> = Seq::empty();
    let mut i: usize = 0;
    while i < n
        invariant
            n == s@.len(),
            i <= n,
            split_on_dots(s@.take(i as int)).len() >= 1,
            cur == split_on_dots(s@.take(i as int)).last(),
            numbers@ == parsed_parts(split_on_dots(s@.take(i as int)).drop_last()),
            cur_len == cur.len(),
            plus == (cur.len() > 0 && cur[0] == '+'),
            ok == (all_digits(unsigned_body(cur)) && digits_value(unsigned_body(cur)) <= u32::MAX),
            ok ==> val == digits_value(unsigned_body(cur)),
            cur_len <= i,
        decreases n - i,
    {
        let c = s.get_char(i);
        let ghost prefix = s@.take(i as int);
        let ghost next = s@.take(i + 1);
        assert(next.drop_last() =~= prefix);
        assert(next.last() == c);
        proof { lemma_split_nonempty(next); }
        if c == '.' {
            let ghost parts = split_on_dots(prefix);
            assert(split_on_dots(next) == parts.push(Seq::<char>::empty()));
            assert(split_on_dots(next).drop_last() =~= parts);
            assert(parts =~= parts.drop_last().push(cur));
            let body_len = if plus { cur_len - 1 } else { cur_len };
            if ok && body_len > 0 {
                assert(parse_u32(cur) == Some(val as u32));
                numbers.push(val as u32);
            } else {
                assert(parse_u32(cur) is None);
            }
            assert(numbers@ =~= parsed_parts(split_on_dots(next).drop_last()));
            cur_len = 0;
            plus = false;
            ok = true;
            val = 0;
            proof { cur = Seq::empty(); }
            assert(all_digits(unsigned_body(cur)));
        } else {
            let ghost parts = split_on_dots(prefix);
            let ghost new_cur = cur.push(c);
            assert(split_on_dots(next) == parts.update(parts.len() - 1, new_cur));
            assert(split_on_dots(next).drop_last() =~= parts.drop_last());
            if cur_len == 0 && c == '+' {
                plus = true;
                assert(unsigned_body(new_cur) =~= Seq::<char>::empty());
                assert(all_digits(unsigned_body(new_cur)));
            } else {
                let ghost body = unsigned_body(cur);
                assert(unsigned_body(new_cur) =~= body.push(c));
                assert(unsigned_body(new_cur).drop_last() =~= body);
                if ok && c >= '0' && c <= '9' {
                    let d = (c as u32 - '0' as u32) as u64;
                    val = val * 10 + d;
                    ok = val <= 0xffff_ffff;
                    assert(all_digits(body.push(c)));
                } else {
                    proof {
                        if !ok && all_digits(body) {
                            assert(digits_value(body) > u32::MAX);
                            if is_digit(c) {
                                assert(digits_value(body.push(c)) >= 10 * digits_value(body));
                            }
                        }
                        if !is_digit(c) {
                            assert(!all_digits(body.push(c))) by {
                                assert(body.push(c)[body.len() as int] == c);
                            }
                        } else if !all_digits(body) {
                            assert(!all_digits(body.push(c))) by {
                                let k = choose|k: int| 0 <= k < body.len() && !is_digit(body[k]);
                                assert(body.push(c)[k] == body[k]);
                            }
                        }
                    }
                    ok = false;
                }
            }
            cur_len = cur_len + 1;
            proof { cur = new_cur; }
        }
        i = i + 1;
    }
    assert(s@.take(n as int) =~= s@);
    let ghost parts = split_on_dots(s@);
    assert(parts =~= parts.drop_last().push(cur));
    let body_len = if plus { cur_len - 1 } else { cur_len };
    if ok && body_len > 0 {
        numbers.push(val as u32);
    }
    assert(numbers@ =~= parsed_parts(parts));
    numbers
}

/// Whether version `latest` is newer than `current`: their numeric components
/// are compared left to right, a missing component counting as 0.
pub fn version_is_newer(latest: &str, current: &str) -> (newer: bool)
    ensures
        newer == components_newer(version_numbers(latest@), version_numbers(current@)),
{
    let l = version_numbers_of(latest);
    let c = version_numbers_of(current);
    let n = if l.len() > c.len() { l.len() } else { c.len() };
    let mut i: usize = 0;
    while i < n
        invariant
            l@ == version_numbers(latest@),
            c@ == version_numbers(current@),
            n == if l@.len() > c@.len() { l@.len() } else { c@.len() },
            i <= n,
            forall|j: int| 0 <= j < i ==> #[trigger] component(l@, j) == component(c@, j),
        decreases n - i,
    {
        let lv = if i < l.len() { l[i] } else { 0 };
        let cv = if i < c.len() { c[i] } else { 0 };
        assert(lv == component(l@, i as int) && cv == component(c@, i as int));
        if lv > cv {
            assert(first_greater_at(l@, c@, i as int));
            return true;
        }
        if lv < cv {
            assert(!components_newer(l@, c@)) by {
                if components_newer(l@, c@) {
                    let k = choose|k: int| first_greater_at(l@, c@, k);
                    if k > i {
                        assert(component(l@, i as int) == component(c@, i as int));
                    }
                }
            }
            return false;
        }
        i = i + 1;
    }
    assert(!components_newer(l@, c@)) by {
        if components_newer(l@, c@) {
            let k = choose|k: int| first_greater_at(l@, c@, k);
            assert(component(l@, k) == component(c@, k));
        }
    }
    false
}

} // verus!
