//! Small executable helpers over `&str` used by the parsers and the
//! evaluator: exact string equality, whitespace trimming and splitting.

use vstd::prelude::*;

verus! {

/// Whitespace for the purposes of the model and policy formats.
pub open spec fn is_space(c: char) -> bool {
    c == ' ' || c == '\t' || c == '\r'
}

/// Character-wise string equality; `r` holds exactly when the two views agree.
pub fn str_eq(a: &str, b: &str) -> (r: bool)
    ensures
        r == (a@ == b@),
{
    let la = a.unicode_len();
    let lb = b.unicode_len();
    if la != lb {
        assert(a@ != b@) by {
            assert(a@.len() != b@.len());
        }
        return false;
    }
    let mut i: usize = 0;
    while i < la
        invariant
            la == a@.len(),
            la == b@.len(),
            0 <= i <= la,
            forall|j: int| 0 <= j < i ==> a@[j] == b@[j],
        decreases la - i,
    {
        if a.get_char(i) != b.get_char(i) {
            return false;
        }
        i += 1;
    }
    proof {
        assert(a@ =~= b@);
    }
    true
}

/// Exec test of [`is_space`].
pub fn space(c: char) -> (r: bool)
    ensures
        r == is_space(c),
{
    c == ' ' || c == '\t' || c == '\r'
}

/// The view of a trimmed string: leading and trailing whitespace removed.
pub open spec fn spec_trim(s: Seq<char>) -> Seq<char> {
    spec_trim_end(spec_trim_start(s))
}

pub open spec fn spec_trim_start(s: Seq<char>) -> Seq<char>
    decreases s.len(),
{
    if s.len() > 0 && is_space(s[0]) {
        spec_trim_start(s.skip(1))
    } else {
        s
    }
}

pub open spec fn spec_trim_end(s: Seq<char>) -> Seq<char>
    decreases s.len(),
{
    if s.len() > 0 && is_space(s[s.len() - 1]) {
        spec_trim_end(s.take(s.len() - 1))
    } else {
        s
    }
}

proof fn lemma_trim_start_skip(s: Seq<char>, i: int)
    requires
        0 <= i <= s.len(),
        forall|j: int| 0 <= j < i ==> is_space(s[j]),
        i == s.len() || !is_space(s[i]),
    ensures
        spec_trim_start(s) == s.skip(i),
    decreases i,
{
    if i == 0 {
        assert(s.skip(0) =~= s);
    } else {
        assert(is_space(s[0]));
        lemma_trim_start_skip(s.skip(1), i - 1);
        assert(s.skip(1).skip(i - 1) =~= s.skip(i));
    }
}

proof fn lemma_trim_end_take(s: Seq<char>, i: int)
    requires
        0 <= i <= s.len(),
        forall|j: int| i <= j < s.len() ==> is_space(s[j]),
        i == 0 || !is_space(s[i - 1]),
    ensures
        spec_trim_end(s) == s.take(i),
    decreases s.len() - i,
{
    if i == s.len() {
        assert(s.take(i) =~= s);
    } else {
        assert(is_space(s[s.len() - 1]));
        lemma_trim_end_take(s.take(s.len() - 1), i);
        assert(s.take(s.len() - 1).take(i) =~= s.take(i));
    }
}

/// Trims leading and trailing whitespace, returning a fresh `String`.
pub fn trim(s: &str) -> (r: String)
    ensures
        r@ == spec_trim(s@),
{
    let n = s.unicode_len();
    let mut start: usize = 0;
    while start < n && space(s.get_char(start))
        invariant
            n == s@.len(),
            0 <= start <= n,
            forall|j: int| 0 <= j < start ==> is_space(s@[j]),
        decreases n - start,
    {
        start += 1;
    }
    proof {
        lemma_trim_start_skip(s@, start as int);
    }
    let mut end: usize = n;
    while end > start && space(s.get_char(end - 1))
        invariant
            n == s@.len(),
            0 <= start <= end <= n,
            forall|j: int| 0 <= j < start ==> is_space(s@[j]),
            start == n || !is_space(s@[start as int]),
            forall|j: int| end <= j < n ==> is_space(s@[j]),
        decreases end,
    {
        end -= 1;
    }
    proof {
        let t = s@.skip(start as int);
        lemma_trim_end_take(t, end - start);
        assert(t.take(end - start) =~= s@.subrange(start as int, end as int));
    }
    let piece = s.substring_char(start, end);
    String::from_str(piece)
}

/// Splits on `sep`; the fields, in order, with the separators removed.
///
/// The result always holds at least one field, and joining the fields back
/// with `sep` gives the input; that pins the fields exactly, since no field
/// contains `sep`.
pub open spec fn spec_join(parts: Seq<Seq<char>>, sep: char) -> Seq<char>
    decreases parts.len(),
{
    if parts.len() == 0 {
        Seq::empty()
    } else if parts.len() == 1 {
        parts[0]
    } else {
        parts[0] + seq![sep] + spec_join(parts.skip(1), sep)
    }
}

/// The fields of `s` split on `sep`: the unique sequence of `sep`-free
/// pieces whose `sep`-join is `s`.
pub open spec fn spec_split(s: Seq<char>, sep: char) -> Seq<Seq<char>>
    decreases s.len(),
{
    if s.len() == 0 {
        seq![Seq::<char>::empty()]
    } else if s[0] == sep {
        seq![Seq::<char>::empty()] + spec_split(s.skip(1), sep)
    } else {
        let r = spec_split(s.skip(1), sep);
        seq![seq![s[0]] + r[0]] + r.skip(1)
    }
}

/// The split is non-empty, its join restores the input, and no field holds
/// the separator.
proof fn lemma_spec_split_props(s: Seq<char>, sep: char)
    ensures
        spec_split(s, sep).len() >= 1,
        spec_join(spec_split(s, sep), sep) == s,
        forall|k: int, j: int|
            0 <= k < spec_split(s, sep).len() && 0 <= j < spec_split(s, sep)[k].len()
                ==> spec_split(s, sep)[k][j] != sep,
    decreases s.len(),
{
    reveal_with_fuel(spec_join, 2);
    let sp = spec_split(s, sep);
    if s.len() == 0 {
        assert(sp =~= seq![Seq::<char>::empty()]);
        assert(spec_join(sp, sep) =~= s);
    } else if s[0] == sep {
        lemma_spec_split_props(s.skip(1), sep);
        let r = spec_split(s.skip(1), sep);
        assert(sp[0] =~= Seq::<char>::empty());
        assert(sp.skip(1) =~= r);
        assert(spec_join(sp, sep) == sp[0] + seq![sep] + spec_join(r, sep));
        assert(sp[0] + seq![sep] + s.skip(1) =~= s);
        assert(forall|k: int, j: int|
            0 <= k < r.len() && 0 <= j < r[k].len() ==> #[trigger] sp[k + 1][j] != sep);
    } else {
        lemma_spec_split_props(s.skip(1), sep);
        let r = spec_split(s.skip(1), sep);
        assert(sp[0] == seq![s[0]] + r[0]);
        if r.len() == 1 {
            assert(sp =~= seq![seq![s[0]] + r[0]]);
            assert(spec_join(sp, sep) == seq![s[0]] + r[0]);
            assert(spec_join(r, sep) == r[0]);
            assert(seq![s[0]] + s.skip(1) =~= s);
        } else {
            assert(sp.skip(1) =~= r.skip(1));
            assert(spec_join(sp, sep) == sp[0] + seq![sep] + spec_join(r.skip(1), sep));
            assert(spec_join(r, sep) == r[0] + seq![sep] + spec_join(r.skip(1), sep));
            assert((seq![s[0]] + r[0]) + seq![sep] + spec_join(r.skip(1), sep) =~= seq![s[0]] + (
            r[0] + seq![sep] + spec_join(r.skip(1), sep)));
            assert(seq![s[0]] + s.skip(1) =~= s);
        }
        assert(forall|j: int| 0 <= j < r[0].len() ==> r[0][j] != sep);
        assert(forall|j: int| 0 <= j < sp[0].len() ==> sp[0][j] != sep);
        assert(forall|k: int, j: int|
            0 <= k < r.skip(1).len() && 0 <= j < r.skip(1)[k].len() ==> #[trigger] sp[k + 1][j]
                != sep);
    }
}

/// Two field sequences with no separator inside and the same join are the
/// same: the join pins the fields.
#[verifier::rlimit(80)]
proof fn lemma_join_unique(a: Seq<Seq<char>>, b: Seq<Seq<char>>, sep: char)
    requires
        a.len() >= 1,
        b.len() >= 1,
        spec_join(a, sep) == spec_join(b, sep),
        forall|k: int, j: int| 0 <= k < a.len() && 0 <= j < a[k].len() ==> a[k][j] != sep,
        forall|k: int, j: int| 0 <= k < b.len() && 0 <= j < b[k].len() ==> b[k][j] != sep,
    ensures
        a == b,
    decreases a.len(),
{
    reveal_with_fuel(spec_join, 2);
    let s = spec_join(a, sep);
    if a.len() == 1 && b.len() == 1 {
        assert(a =~= b);
    } else if a.len() == 1 && b.len() > 1 {
        assert(s == b[0] + seq![sep] + spec_join(b.skip(1), sep));
        assert(s[b[0].len() as int] == sep);
        assert(a[0][b[0].len() as int] == sep);
        assert(false);
    } else if b.len() == 1 && a.len() > 1 {
        assert(s == a[0] + seq![sep] + spec_join(a.skip(1), sep));
        assert(s[a[0].len() as int] == sep);
        assert(b[0][a[0].len() as int] == sep);
        assert(false);
    } else {
        let la = a[0].len() as int;
        let lb = b[0].len() as int;
        assert(s == a[0] + seq![sep] + spec_join(a.skip(1), sep));
        assert(s == b[0] + seq![sep] + spec_join(b.skip(1), sep));
        assert(s[la] == sep);
        assert(s[lb] == sep);
        if la < lb {
            assert(b[0][la] == sep);
            assert(false);
        }
        if lb < la {
            assert(a[0][lb] == sep);
            assert(false);
        }
        assert((a[0] + seq![sep] + spec_join(a.skip(1), sep)).take(la) =~= a[0]);
        assert((b[0] + seq![sep] + spec_join(b.skip(1), sep)).take(lb) =~= b[0]);
        assert(a[0] == s.take(la));
        assert(b[0] == s.take(lb));
        assert(a[0] == b[0]);
        assert((a[0] + seq![sep] + spec_join(a.skip(1), sep)).skip(la + 1) =~= spec_join(
            a.skip(1),
            sep,
        ));
        assert((b[0] + seq![sep] + spec_join(b.skip(1), sep)).skip(lb + 1) =~= spec_join(
            b.skip(1),
            sep,
        ));
        assert(spec_join(a.skip(1), sep) == s.skip(la + 1));
        assert(spec_join(b.skip(1), sep) == s.skip(lb + 1));
        assert(forall|k: int, j: int|
            0 <= k < a.skip(1).len() && 0 <= j < a.skip(1)[k].len() ==> #[trigger] a.skip(1)[k][j]
                != sep);
        assert(forall|k: int, j: int|
            0 <= k < b.skip(1).len() && 0 <= j < b.skip(1)[k].len() ==> #[trigger] b.skip(1)[k][j]
                != sep);
        lemma_join_unique(a.skip(1), b.skip(1), sep);
        assert(a.skip(1).len() == b.skip(1).len());
        assert(a.len() == b.len());
        assert(forall|i: int| 1 <= i < a.len() ==> #[trigger] a[i] == a.skip(1)[i - 1]);
        assert(forall|i: int| 1 <= i < b.len() ==> #[trigger] b[i] == b.skip(1)[i - 1]);
        assert(a =~= b);
    }
}

/// Splits `s` on every occurrence of `sep`; the fields are exactly
/// [`spec_split`] of the view.
pub fn split(s: &str, sep: char) -> (parts: Vec<String>)
    ensures
        parts@.len() >= 1,
        parts@.map_values(|p: String| p@) == spec_split(s@, sep),
        spec_join(parts@.map_values(|p: String| p@), sep) == s@,
        forall|k: int, j: int|
            0 <= k < parts@.len() && 0 <= j < parts@[k]@.len() ==> parts@[k]@[j] != sep,
{
    let n = s.unicode_len();
    let mut parts: Vec<String> = Vec::new();
    let mut field_start: usize = 0;
    let mut i: usize = 0;
    while i < n
        invariant
            n == s@.len(),
            0 <= field_start <= i <= n,
            spec_join(
                parts@.map_values(|p: String| p@).push(s@.subrange(field_start as int, i as int)),
                sep,
            ) == s@.take(i as int),
            forall|k: int, j: int|
                0 <= k < parts@.len() && 0 <= j < parts@[k]@.len() ==> parts@[k]@[j] != sep,
            forall|j: int| field_start <= j < i ==> s@[j] != sep,
        decreases n - i,
    {
        let ghost old_parts = parts@.map_values(|p: String| p@);
        let ghost cur = s@.subrange(field_start as int, i as int);
        let c = s.get_char(i);
        if c == sep {
            let piece = s.substring_char(field_start, i);
            parts.push(String::from_str(piece));
            field_start = i + 1;
            proof {
                let new_parts = parts@.map_values(|p: String| p@);
                assert(new_parts =~= old_parts.push(cur));
                lemma_join_push(old_parts.push(cur), s@.subrange(field_start as int, i + 1), sep);
                assert(s@.take(i as int) + seq![sep] + s@.subrange(field_start as int, i + 1)
                    =~= s@.take(i + 1));
            }
        } else {
            proof {
                let cur2 = s@.subrange(field_start as int, i + 1);
                assert(cur2 =~= cur.push(c));
                lemma_join_last_push(old_parts, cur, c, sep);
                assert(s@.take(i as int).push(c) =~= s@.take(i + 1));
            }
        }
        i += 1;
    }
    let ghost old_map = parts@.map_values(|p: String| p@);
    let piece = s.substring_char(field_start, n);
    parts.push(String::from_str(piece));
    proof {
        assert(parts@.map_values(|p: String| p@) =~= old_map.push(
            s@.subrange(field_start as int, n as int),
        ));
        assert(s@.take(n as int) =~= s@);
        lemma_spec_split_props(s@, sep);
        lemma_join_unique(parts@.map_values(|p: String| p@), spec_split(s@, sep), sep);
    }
    parts
}

/// Appending a fresh field after a separator extends the join by `sep` + field.
proof fn lemma_join_push(parts: Seq<Seq<char>>, last: Seq<char>, sep: char)
    requires
        parts.len() >= 1,
    ensures
        spec_join(parts.push(last), sep) == spec_join(parts, sep) + seq![sep] + last,
    decreases parts.len(),
{
    if parts.len() == 1 {
        assert(parts.push(last).skip(1) =~= seq![last]);
        assert(spec_join(seq![last], sep) == last);
        assert(parts.push(last)[0] == parts[0]);
    } else {
        lemma_join_push(parts.skip(1), last, sep);
        assert(parts.push(last).skip(1) =~= parts.skip(1).push(last));
        assert(spec_join(parts.push(last), sep) == parts[0] + seq![sep] + spec_join(
            parts.skip(1).push(last),
            sep,
        ));
        assert(parts[0] + seq![sep] + (spec_join(parts.skip(1), sep) + seq![sep] + last) =~= (
        parts[0] + seq![sep] + spec_join(parts.skip(1), sep)) + seq![sep] + last);
    }
}

/// Extending the last field by one character extends the join by it.
proof fn lemma_join_last_push(parts: Seq<Seq<char>>, last: Seq<char>, c: char, sep: char)
    ensures
        spec_join(parts.push(last.push(c)), sep) == spec_join(parts.push(last), sep).push(c),
    decreases parts.len(),
{
    reveal_with_fuel(spec_join, 3);
    if parts.len() == 0 {
        assert(parts.push(last.push(c)) =~= seq![last.push(c)]);
        assert(parts.push(last) =~= seq![last]);
        assert(spec_join(seq![last.push(c)], sep) == last.push(c));
        assert(spec_join(seq![last], sep) == last);
    } else if parts.len() == 1 {
        assert(parts.push(last.push(c)).skip(1) =~= seq![last.push(c)]);
        assert(parts.push(last).skip(1) =~= seq![last]);
        assert(parts.push(last.push(c))[0] == parts[0]);
        assert(parts.push(last)[0] == parts[0]);
        assert(spec_join(parts.push(last.push(c)), sep) == parts[0] + seq![sep] + last.push(c));
        assert(spec_join(parts.push(last), sep) == parts[0] + seq![sep] + last);
        assert(parts[0] + seq![sep] + last.push(c) =~= (parts[0] + seq![sep] + last).push(c));
    } else {
        lemma_join_last_push(parts.skip(1), last, c, sep);
        assert(parts.push(last.push(c)).skip(1) =~= parts.skip(1).push(last.push(c)));
        assert(parts.push(last).skip(1) =~= parts.skip(1).push(last));
        assert(parts.push(last.push(c))[0] == parts[0]);
        assert(parts.push(last)[0] == parts[0]);
        assert(spec_join(parts.push(last.push(c)), sep) == parts[0] + seq![sep] + spec_join(
            parts.skip(1).push(last.push(c)),
            sep,
        ));
        assert(spec_join(parts.push(last), sep) == parts[0] + seq![sep] + spec_join(
            parts.skip(1).push(last),
            sep,
        ));
        assert(parts[0] + seq![sep] + spec_join(parts.skip(1).push(last), sep).push(c) =~= (
        parts[0] + seq![sep] + spec_join(parts.skip(1).push(last), sep)).push(c));
    }
}

} // verus!
