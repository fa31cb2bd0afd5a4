//! Small helpers on strings, numbers and byte slices.

use vstd::prelude::*;

verus! {

/// Appends one character to a string.
///
/// Trusted: calls `String::push`, which the standard library documents as
/// appending the given `char` to the end of the string.
#[verifier::external_body]
pub(crate) fn push_char(s: &mut String, c: char)
    ensures
        final(s)@ == old(s)@.push(c),
{
    s.push(c)
}

/// Removes the last character of a string and returns it.
///
/// Trusted: calls `String::pop`, which the standard library documents as
/// removing the last character and returning it, or returning `None` for
/// an empty string.
#[verifier::external_body]
pub(crate) fn pop_char(s: &mut String) -> (c: Option<char>)
    ensures
        old(s)@.len() == 0 ==> c is None && final(s)@ == old(s)@,
        old(s)@.len() > 0 ==> c == Some(old(s)@.last()) && final(s)@ == old(s)@.drop_last(),
{
    s.pop()
}

/// The characters of a string slice, in order.
pub fn chars_of(s: &str) -> (v: Vec<char>)
    ensures
        v@ == s@,
{
    let mut v: Vec<char> = Vec::new();
    for c in it: s.chars()
        invariant
            v@ == it.seq().take(it.index() as int),
    {
        v.push(c);
    }
    v
}

/// A string holding the given characters.
pub fn string_of(v: &[char]) -> (s: String)
    ensures
        s@ == v@,
{
    let mut s = String::new();
    let mut i: usize = 0;
    while i < v.len()
        invariant
            i <= v.len(),
            s@ == v@.take(i as int),
        decreases v.len() - i,
    {
        push_char(&mut s, v[i]);
        i += 1;
        assert(v@.take(i as int) == v@.take(i as int - 1).push(v@[i as int - 1]));
    }
    s
}

/// A copy of the given bytes.
pub fn copy_bytes(v: &[u8]) -> (out: Vec<u8>)
    ensures
        out@ == v@,
{
    let mut out: Vec<u8> = Vec::new();
    let mut i: usize = 0;
    while i < v.len()
        invariant
            i <= v.len(),
            out@ == v@.take(i as int),
        decreases v.len() - i,
    {
        out.push(v[i]);
        i += 1;
        assert(v@.take(i as int) == v@.take(i as int - 1).push(v@[i as int - 1]));
    }
    assert(v@.take(i as int) =~= v@);
    out
}

/// The sequence without its elements from index `from` up to `to`.
pub open spec fn without(s: Seq<u8>, from: int, to: int) -> Seq<u8> {
    s.subrange(0, from) + s.subrange(to, s.len() as int)
}

/// Removes the bytes from index `from` up to `to`.
pub fn remove_range(v: &mut Vec<u8>, from: usize, to: usize)
    requires
        from <= to <= old(v)@.len(),
    ensures
        final(v)@ == without(old(v)@, from as int, to as int),
{
    let mut k: usize = from;
    while k < to
        invariant
            from <= k <= to,
            to <= old(v)@.len(),
            v@ == without(old(v)@, from as int, k as int),
        decreases to - k,
    {
        v.remove(from);
        k += 1;
        assert(v@ =~= without(old(v)@, from as int, k as int));
    }
    assert(old(v)@ =~= without(old(v)@, from as int, from as int));
}

/// `n` spaces.
pub open spec fn spaces(n: int) -> Seq<char> {
    Seq::new(n as nat, |j: int| ' ')
}

/// Appends `n` spaces.
pub fn push_spaces(buf: &mut String, n: usize)
    ensures
        final(buf)@ == old(buf)@ + spaces(n as int),
{
    let mut j: usize = 0;
    while j < n
        invariant
            j <= n,
            buf@ == old(buf)@ + spaces(j as int),
        decreases n - j,
    {
        push_char(buf, ' ');
        j += 1;
        assert(buf@ =~= old(buf)@ + spaces(j as int));
    }
    assert(old(buf)@ =~= old(buf)@ + spaces(0));
}

/// Appends the characters of `s` from index `from` up to `to`.
pub fn push_chars(buf: &mut String, s: &[char], from: usize, to: usize)
    requires
        from <= to <= s.len(),
    ensures
        final(buf)@ == old(buf)@ + s@.subrange(from as int, to as int),
{
    let mut j: usize = from;
    assert(old(buf)@ =~= old(buf)@ + s@.subrange(from as int, from as int));
    while j < to
        invariant
            from <= j <= to,
            to <= s.len(),
            buf@ == old(buf)@ + s@.subrange(from as int, j as int),
        decreases to - j,
    {
        push_char(buf, s[j]);
        j += 1;
        assert(buf@ =~= old(buf)@ + s@.subrange(from as int, j as int));
    }
}

/// The first `n` characters of a text, all of it where it has fewer.
pub open spec fn clipped(s: Seq<char>, n: int) -> Seq<char> {
    if n <= 0 {
        Seq::empty()
    } else if s.len() <= n {
        s
    } else {
        s.subrange(0, n)
    }
}

/// A text moved to the right edge of a field of width `w`; as it is where
/// it is at least as wide.
pub open spec fn flush_right(s: Seq<char>, w: int) -> Seq<char> {
    if s.len() >= w {
        s
    } else {
        spaces(w - s.len()) + s
    }
}

/// A text clipped to `w` characters and centred in a field of that width,
/// the odd space going to the right.
pub open spec fn centred(s: Seq<char>, w: int) -> Seq<char> {
    let t = clipped(s, w);
    let gap = w - t.len();
    spaces(gap / 2) + t + spaces(gap - gap / 2)
}

/// Appends the first `n` characters of `s`.
pub fn push_clipped(buf: &mut String, s: &[char], n: usize)
    ensures
        final(buf)@ == old(buf)@ + clipped(s@, n as int),
{
    let m = if s.len() <= n {
        s.len()
    } else {
        n
    };
    push_chars(buf, s, 0, m);
    assert(s@.subrange(0, m as int) =~= clipped(s@, n as int));
}

/// Appends `s`, clipped to `w` characters and moved to the right edge of a
/// field of width `w`.
pub fn push_flush_right(buf: &mut String, s: &[char], clip: bool, w: usize)
    ensures
        final(buf)@ == old(buf)@ + flush_right(
            if clip {
                clipped(s@, w as int)
            } else {
                s@
            },
            w as int,
        ),
{
    let m = if !clip || s.len() <= w {
        s.len()
    } else {
        w
    };
    let ghost t = if clip {
        clipped(s@, w as int)
    } else {
        s@
    };
    assert(s@.subrange(0, m as int) =~= t);
    if m < w {
        push_spaces(buf, w - m);
    }
    push_chars(buf, s, 0, m);
    assert(final(buf)@ =~= old(buf)@ + flush_right(t, w as int));
}

/// Appends `s`, clipped to `w` characters and centred in a field of that
/// width.
pub fn push_centred(buf: &mut String, s: &[char], w: usize)
    ensures
        final(buf)@ == old(buf)@ + centred(s@, w as int),
{
    let m = if s.len() <= w {
        s.len()
    } else {
        w
    };
    assert(s@.subrange(0, m as int) =~= clipped(s@, w as int));
    let gap = w - m;
    push_spaces(buf, gap / 2);
    push_chars(buf, s, 0, m);
    push_spaces(buf, gap - gap / 2);
    assert(final(buf)@ =~= old(buf)@ + centred(s@, w as int));
}

/// The decimal digit for a value below ten.
pub open spec fn digit(d: nat) -> char {
    (48 + d) as char
}

/// A number written in decimal, without sign or leading zeros.
pub open spec fn decimal(n: nat) -> Seq<char>
    decreases n,
{
    if n < 10 {
        seq![digit(n)]
    } else {
        decimal(n / 10).push(digit(n % 10))
    }
}

/// Appends `n` in decimal to `buf`.
pub fn push_decimal(buf: &mut String, n: usize)
    ensures
        final(buf)@ == old(buf)@ + decimal(n as nat),
    decreases n,
{
    if n >= 10 {
        push_decimal(buf, n / 10);
    }
    push_char(buf, digit_char((n % 10) as u8));
    assert(final(buf)@ == old(buf)@ + decimal(n as nat));
}

/// Whether `t` occurs in `s` at index `i`.
pub open spec fn occurs_at<T>(s: Seq<T>, t: Seq<T>, i: int) -> bool {
    0 <= i && i + t.len() <= s.len() && s.subrange(i, i + t.len()) == t
}

/// The least index from `i` on at which `t` occurs in `s`.
pub open spec fn first_from<T>(s: Seq<T>, t: Seq<T>, i: int) -> Option<int>
    decreases s.len() - i,
{
    if i < 0 || i + t.len() > s.len() {
        None
    } else if occurs_at(s, t, i) {
        Some(i)
    } else if i >= s.len() {
        None
    } else {
        first_from(s, t, i + 1)
    }
}

/// The least index at which `t` occurs in `s`.
pub open spec fn first_at<T>(s: Seq<T>, t: Seq<T>) -> Option<int> {
    first_from(s, t, 0)
}

/// The least index at which `t` occurs lies in `s`, `t` occurs there and
/// nowhere before; there is none exactly when `t` occurs nowhere.
pub proof fn lemma_first_from<T>(s: Seq<T>, t: Seq<T>, i: int)
    requires
        0 <= i,
    ensures
        match first_from(s, t, i) {
            Some(k) => i <= k && occurs_at(s, t, k) && forall|j: int| i <= j < k ==> !occurs_at(s, t, j),
            None => forall|j: int| i <= j ==> !occurs_at(s, t, j),
        },
    decreases s.len() - i,
{
    if i + t.len() <= s.len() && !occurs_at(s, t, i) {
        if i >= s.len() {
            assert(s.subrange(i, i + t.len()) =~= t);
        } else {
            lemma_first_from(s, t, i + 1);
        }
    }
}

/// Whether `==` on `T` tells exactly whether two values are the same.
pub open spec fn plain_equality<T: PartialEq>() -> bool {
    vstd::laws_eq::obeys_concrete_eq::<T>()
}

/// `==` on bytes tells exactly whether two bytes are the same.
pub proof fn lemma_bytes_equality()
    ensures
        plain_equality::<u8>(),
{
    reveal(vstd::laws_eq::obeys_concrete_eq);
}

/// Whether `s` holds `t` from index `i` on, for elements of any kind.
pub fn holds_at<T: PartialEq>(s: &[T], i: usize, t: &[T]) -> (r: bool)
    ensures
        plain_equality::<T>() ==> r == occurs_at(s@, t@, i as int),
{
    proof {
        reveal(vstd::laws_eq::obeys_concrete_eq);
    }
    if i > s.len() || t.len() > s.len() - i {
        return false;
    }
    let mut k: usize = 0;
    while k < t.len()
        invariant
            k <= t.len(),
            i + t.len() <= s.len(),
            plain_equality::<T>() ==> forall|j: int| 0 <= j < k ==> s@[i + j] == t@[j],
        decreases t.len() - k,
    {
        proof {
            reveal(vstd::laws_eq::obeys_concrete_eq);
        }
        if s[i + k] != t[k] {
            assert(s@.subrange(i as int, i + t.len())[k as int] == s@[i + k]);
            return false;
        }
        k += 1;
    }
    assert(plain_equality::<T>() ==> s@.subrange(i as int, i + t.len()) =~= t@);
    true
}

/// Whether `s` holds `t` from index `i` on.
pub fn starts_at(s: &[u8], i: usize, t: &[u8]) -> (r: bool)
    ensures
        r == occurs_at(s@, t@, i as int),
{
    proof {
        lemma_bytes_equality();
    }
    holds_at(s, i, t)
}

/// Finds the first index at which `t` occurs in `s`.
///
/// Where `==` on `T` tells exactly whether two values are the same, as it
/// does on bytes, the result is `Some(i)` for the least index at which `t`
/// occurs and `None` exactly when `t` occurs nowhere in `s`. An empty `t`
/// occurs at index 0.
pub fn slice_find<T: PartialEq>(s: &[T], t: &[T]) -> (r: Option<usize>)
    ensures
        plain_equality::<T>() ==> match first_at(s@, t@) {
            Some(i) => r == Some(i as usize),
            None => r is None,
        },
        plain_equality::<T>() ==> match r {
            Some(i) => occurs_at(s@, t@, i as int) && forall|j: int|
                0 <= j < i ==> !occurs_at(s@, t@, j),
            None => forall|j: int| !occurs_at(s@, t@, j),
        },
        r matches Some(i) ==> i + t.len() <= s.len(),
{
    if t.len() > s.len() {
        proof {
            lemma_first_from(s@, t@, 0);
        }
        return None;
    }
    let last: usize = s.len() - t.len();
    let mut i: usize = 0;
    loop
        invariant
            last == s.len() - t.len(),
            t.len() <= s.len(),
            i <= last,
            plain_equality::<T>() ==> forall|j: int| 0 <= j < i ==> !occurs_at(s@, t@, j),
        decreases last - i,
    {
        if holds_at(s, i, t) {
            proof {
                lemma_first_from(s@, t@, 0);
            }
            return Some(i);
        }
        if i == last {
            proof {
                lemma_first_from(s@, t@, 0);
            }
            return None;
        }
        i += 1;
    }
}

/// Finds the first index at which the bytes `t` occur in `s`.
pub fn find_bytes(s: &[u8], t: &[u8]) -> (r: Option<usize>)
    ensures
        match first_at(s@, t@) {
            Some(i) => r == Some(i as usize),
            None => r is None,
        },
{
    proof {
        lemma_bytes_equality();
    }
    slice_find(s, t)
}

/// The unit letter for a size in the 1024-based scale: index 1 is kilo.
pub open spec fn unit_letter(i: nat) -> char {
    if i == 1 {
        'k'
    } else if i == 2 {
        'M'
    } else if i == 3 {
        'G'
    } else if i == 4 {
        'T'
    } else if i == 5 {
        'P'
    } else if i == 6 {
        'E'
    } else {
        'Z'
    }
}

/// 1024 to the power `i`.
pub open spec fn kibi(i: nat) -> nat
    decreases i,
{
    if i == 0 {
        1
    } else {
        1024 * kibi((i - 1) as nat)
    }
}

/// The scale at which a size is shown: the largest `i` with `1024^i <= n`,
/// and 0 below 1024.
pub open spec fn size_scale(n: nat) -> nat
    decreases n,
{
    if n < 1024 {
        0
    } else {
        1 + size_scale(n / 1024)
    }
}

/// A size as shown in the status bar: bytes below 1024, else two decimals
/// of the largest fitting 1024-based unit, rounded down.
pub open spec fn size_text(n: nat) -> Seq<char> {
    if n < 1024 {
        decimal(n).push('B')
    } else {
        let i = size_scale(n);
        let q = (100 * n) / kibi(i);
        decimal(q / 100).push('.').push(digit((q % 100) / 10)).push(digit(q % 10)).push(
            unit_letter(i),
        ).push('B')
    }
}

proof fn lemma_scale_step(n: nat, d: nat)
    requires
        d > 0,
        n / d >= 1024,
    ensures
        n / (1024 * d) == (n / d) / 1024,
        1024 * d <= n,
{
    vstd::arithmetic::div_mod::lemma_div_denominator(n as int, d as int, 1024);
    assert(d * 1024 == 1024 * d);
    vstd::arithmetic::div_mod::lemma_fundamental_div_mod(n as int, d as int);
    assert(d * (n / d) >= d * 1024) by (nonlinear_arith)
        requires
            n / d >= 1024,
            d > 0,
    ;
}

proof fn lemma_hundredths(n: nat, d: nat)
    requires
        d > 0,
    ensures
        (100 * n) / d <= 100 * n,
        ((100 * n) / d) / 100 <= n,
{
    vstd::arithmetic::div_mod::lemma_div_is_ordered_by_denominator((100 * n) as int, 1, d as int);
    vstd::arithmetic::div_mod::lemma_div_is_ordered(((100 * n) / d) as int, (100 * n) as int, 100);
    vstd::arithmetic::div_mod::lemma_div_multiples_vanish(n as int, 100);
    assert(100 * n == n * 100);
}

fn unit_char(i: usize) -> (c: char)
    ensures
        c == unit_letter(i as nat),
{
    if i == 1 {
        'k'
    } else if i == 2 {
        'M'
    } else if i == 3 {
        'G'
    } else if i == 4 {
        'T'
    } else if i == 5 {
        'P'
    } else if i == 6 {
        'E'
    } else {
        'Z'
    }
}

fn digit_char(d: u8) -> (c: char)
    requires
        d < 10,
    ensures
        c == digit(d as nat),
{
    (48 + d) as char
}

/// Formats a byte count for the status bar.
pub fn format_size(n: usize) -> (s: String)
    ensures
        s@ == size_text(n as nat),
{
    let mut s = String::new();
    if n < 1024 {
        push_decimal(&mut s, n);
        push_char(&mut s, 'B');
        assert(s@ =~= size_text(n as nat));
        return s;
    }
    let mut i: usize = 0;
    let mut d: usize = 1;
    let mut rest: usize = n;
    while rest >= 1024
        invariant
            d == kibi(i as nat),
            d > 0,
            d <= n,
            rest == n / d,
            i + rest <= n,
            size_scale(n as nat) == i + size_scale(rest as nat),
        decreases rest,
    {
        proof {
            lemma_scale_step(n as nat, d as nat);
        }
        rest = rest / 1024;
        d = d * 1024;
        i = i + 1;
    }
    proof {
        lemma_hundredths(n as nat, d as nat);
    }
    let q: u128 = (100u128 * (n as u128)) / (d as u128);
    let whole: usize = (q / 100) as usize;
    let cents: u8 = (q % 100) as u8;
    push_decimal(&mut s, whole);
    push_char(&mut s, '.');
    push_char(&mut s, digit_char(cents / 10));
    push_char(&mut s, digit_char(cents % 10));
    push_char(&mut s, unit_char(i));
    push_char(&mut s, 'B');
    assert(s@ =~= size_text(n as nat));
    s
}

/// The pieces into which the separator cuts the first `k` elements: a new
/// piece starts after every separator, so there is always one piece more
/// than there are separators.
pub open spec fn pieces_upto<T>(s: Seq<T>, sep: T, k: int) -> Seq<Seq<T>>
    decreases k,
{
    if k <= 0 || k > s.len() {
        seq![Seq::empty()]
    } else {
        let before = pieces_upto(s, sep, k - 1);
        if s[k - 1] == sep {
            before.push(Seq::empty())
        } else {
            before.update(before.len() - 1, before.last().push(s[k - 1]))
        }
    }
}

/// The pieces into which the separator cuts a sequence.
pub open spec fn pieces<T>(s: Seq<T>, sep: T) -> Seq<Seq<T>> {
    pieces_upto(s, sep, s.len() as int)
}

/// The first `k` pieces put together, a separator between every two.
pub open spec fn glued_upto<T>(rows: Seq<Seq<T>>, sep: T, k: int) -> Seq<T>
    decreases k,
{
    if k <= 0 || k > rows.len() {
        Seq::empty()
    } else if k == 1 {
        rows[0]
    } else {
        glued_upto(rows, sep, k - 1).push(sep) + rows[k - 1]
    }
}

/// The pieces put together, a separator between every two.
pub open spec fn glued<T>(rows: Seq<Seq<T>>, sep: T) -> Seq<T> {
    glued_upto(rows, sep, rows.len() as int)
}

/// The rows of a prefix of a file: at least one, and none holds a line
/// terminator.
pub proof fn lemma_pieces_upto<T>(bytes: Seq<T>, sep: T, k: int)
    requires
        0 <= k <= bytes.len(),
    ensures
        pieces_upto(bytes, sep, k).len() >= 1,
        forall|i: int, j: int|
            0 <= i < pieces_upto(bytes, sep, k).len() && 0 <= j < pieces_upto(bytes, sep, k)[i].len()
                ==> pieces_upto(bytes, sep, k)[i][j] != sep,
    decreases k,
{
    if k > 0 {
        lemma_pieces_upto(bytes, sep, k - 1);
    }
}

/// Pieces put together end in their last piece, after a separator where
/// there are pieces before it; and this stays so when the last piece is
/// changed.
pub proof fn lemma_glued_last<T>(rows: Seq<Seq<T>>, sep: T, last: Seq<T>)
    requires
        rows.len() >= 1,
    ensures
        glued(rows.update(rows.len() - 1, last), sep) == glued_upto(rows, sep, rows.len() - 1) + (if rows.len()
            > 1 {
            seq![sep]
        } else {
            Seq::<T>::empty()
        }) + last,
        glued(rows, sep) == glued_upto(rows, sep, rows.len() - 1) + (if rows.len() > 1 {
            seq![sep]
        } else {
            Seq::<T>::empty()
        }) + rows.last(),
{
    let n = rows.len() as int;
    let changed = rows.update(n - 1, last);
    lemma_glued_prefix(rows, changed, sep, n - 1);
    if n > 1 {
        assert(glued(changed, sep) =~= glued_upto(rows, sep, n - 1) + seq![sep] + last);
        assert(glued(rows, sep) =~= glued_upto(rows, sep, n - 1) + seq![sep] + rows.last());
    } else {
        assert(glued(changed, sep) =~= glued_upto(rows, sep, 0) + Seq::<T>::empty() + last);
        assert(glued(rows, sep) =~= glued_upto(rows, sep, 0) + Seq::<T>::empty() + rows.last());
    }
}

/// Rows that agree on their first `k` join to the same bytes up to there.
pub proof fn lemma_glued_prefix<T>(a: Seq<Seq<T>>, b: Seq<Seq<T>>, sep: T, k: int)
    requires
        0 <= k <= a.len(),
        k <= b.len(),
        forall|i: int| 0 <= i < k ==> a[i] == b[i],
    ensures
        glued_upto(a, sep, k) == glued_upto(b, sep, k),
    decreases k,
{
    if k > 1 {
        lemma_glued_prefix(a, b, sep, k - 1);
    }
}

/// Splitting a file into rows and joining the rows again gives the file
/// back, byte for byte, whether or not it ends in a line terminator.
pub proof fn lemma_split_glue<T>(bytes: Seq<T>, sep: T, k: int)
    requires
        0 <= k <= bytes.len(),
    ensures
        glued(pieces_upto(bytes, sep, k), sep) == bytes.subrange(0, k),
    decreases k,
{
    if k == 0 {
        assert(glued(pieces_upto(bytes, sep, 0), sep) =~= bytes.subrange(0, 0));
    } else {
        lemma_split_glue(bytes, sep, k - 1);
        lemma_pieces_upto(bytes, sep, k - 1);
        let before = pieces_upto(bytes, sep, k - 1);
        let n = before.len() as int;
        if bytes[k - 1] == sep {
            let after = before.push(Seq::<T>::empty());
            lemma_glued_prefix(before, after, sep, n);
            assert(glued(after, sep) =~= glued(before, sep).push(sep) + Seq::<T>::empty());
            assert(glued(after, sep) =~= bytes.subrange(0, k));
        } else {
            lemma_glued_last(before, sep, before.last().push(bytes[k - 1]));
            let gap = if n > 1 {
                seq![sep]
            } else {
                Seq::<T>::empty()
            };
            assert(glued_upto(before, sep, n - 1) + gap + before.last().push(bytes[k - 1]) =~= (glued_upto(before, sep, n - 1) + gap + before.last()).push(bytes[k - 1]));
            assert(bytes.subrange(0, k) =~= bytes.subrange(0, k - 1).push(bytes[k - 1]));
        }
    }
}

/// Cuts the characters of `s` into pieces at every `sep`.
pub fn split_chars(s: &[char], sep: char) -> (parts: Vec<Vec<char>>)
    ensures
        parts@.map_values(|p: Vec<char>| p@) == pieces(s@, sep),
        parts@.len() >= 1,
{
    let mut parts: Vec<Vec<char>> = Vec::new();
    let mut current: Vec<char> = Vec::new();
    let mut k: usize = 0;
    assert(parts@.map_values(|p: Vec<char>| p@).push(current@) =~= pieces_upto(s@, sep, 0));
    while k < s.len()
        invariant
            k <= s.len(),
            parts@.map_values(|p: Vec<char>| p@).push(current@) == pieces_upto(s@, sep, k as int),
        decreases s.len() - k,
    {
        let ghost before = pieces_upto(s@, sep, k as int);
        if s[k] == sep {
            parts.push(current);
            current = Vec::new();
            assert(parts@.map_values(|p: Vec<char>| p@).push(current@) =~= before.push(Seq::empty()));
        } else {
            current.push(s[k]);
            assert(parts@.map_values(|p: Vec<char>| p@).push(current@) =~= before.update(
                before.len() - 1,
                before.last().push(s@[k as int]),
            ));
        }
        k += 1;
    }
    parts.push(current);
    assert(parts@.map_values(|p: Vec<char>| p@) =~= pieces(s@, sep));
    parts
}

/// Whether the characters are those of the given text.
pub fn same_text(s: &[char], text: &str) -> (r: bool)
    ensures
        r == (s@ == text@),
{
    let t = chars_of(text);
    if s.len() != t.len() {
        return false;
    }
    let mut k: usize = 0;
    while k < s.len()
        invariant
            k <= s.len(),
            s.len() == t.len(),
            t@ == text@,
            forall|j: int| 0 <= j < k ==> s@[j] == t@[j],
        decreases s.len() - k,
    {
        if s[k] != t[k] {
            return false;
        }
        k += 1;
    }
    assert(s@ =~= t@);
    true
}

/// The characters between `from` and `to` without the white space at
/// their start and end.
pub fn trim(s: &[char]) -> (t: Vec<char>)
    ensures
        t@ == trimmed(s@),
{
    proof {
        lemma_skip_spaces(s@, 0);
        lemma_drop_spaces(s@, skip_spaces(s@, 0), s@.len() as int);
        assert(s@.subrange(0, s@.len() as int) =~= s@);
    }
    let (a, b) = trim_bounds(s, 0, s.len(), true, true);
    let mut t: Vec<char> = Vec::new();
    let mut k = a;
    while k < b
        invariant
            a <= k <= b,
            b <= s.len(),
            t@ == s@.subrange(a as int, k as int),
        decreases b - k,
    {
        t.push(s[k]);
        k += 1;
        assert(t@ =~= s@.subrange(a as int, k as int));
    }
    t
}

/// Whether a character is white space in the sense of Unicode.
pub open spec fn is_space(c: char) -> bool {
    let v = c as u32;
    ||| 0x09 <= v <= 0x0D
    ||| v == 0x20
    ||| v == 0x85
    ||| v == 0xA0
    ||| v == 0x1680
    ||| 0x2000 <= v <= 0x200A
    ||| v == 0x2028
    ||| v == 0x2029
    ||| v == 0x202F
    ||| v == 0x205F
    ||| v == 0x3000
}

/// Whether a character is white space in the sense of Unicode.
pub fn is_whitespace(c: char) -> (r: bool)
    ensures
        r == is_space(c),
{
    let v = c as u32;
    (0x09 <= v && v <= 0x0D) || v == 0x20 || v == 0x85 || v == 0xA0 || v == 0x1680 || (0x2000 <= v
        && v <= 0x200A) || v == 0x2028 || v == 0x2029 || v == 0x202F || v == 0x205F || v == 0x3000
}

/// The index of the first character from `i` on that is no white space,
/// the length where there is none.
pub open spec fn skip_spaces(s: Seq<char>, i: int) -> int
    decreases s.len() - i,
{
    if 0 <= i < s.len() && is_space(s[i]) {
        skip_spaces(s, i + 1)
    } else {
        i
    }
}

/// The index after the last character before `j` that is no white space,
/// and not below `i`.
pub open spec fn drop_spaces(s: Seq<char>, i: int, j: int) -> int
    decreases j,
{
    if 0 <= i < j <= s.len() && is_space(s[j - 1]) {
        drop_spaces(s, i, j - 1)
    } else {
        j
    }
}

/// The text without the white space at its end.
pub open spec fn trimmed_end(s: Seq<char>) -> Seq<char> {
    s.subrange(0, drop_spaces(s, 0, s.len() as int))
}

/// The text without the white space at its start and at its end.
pub open spec fn trimmed(s: Seq<char>) -> Seq<char> {
    s.subrange(skip_spaces(s, 0), drop_spaces(s, skip_spaces(s, 0), s.len() as int))
}

/// Skipping white space stops within the text, at or after where it began.
pub proof fn lemma_skip_spaces(s: Seq<char>, i: int)
    requires
        0 <= i <= s.len(),
    ensures
        i <= skip_spaces(s, i) <= s.len(),
    decreases s.len() - i,
{
    if i < s.len() && is_space(s[i]) {
        lemma_skip_spaces(s, i + 1);
    }
}

/// Dropping white space stops within the bounds that it was given.
pub proof fn lemma_drop_spaces(s: Seq<char>, i: int, j: int)
    requires
        0 <= i <= j <= s.len(),
    ensures
        i <= drop_spaces(s, i, j) <= j,
    decreases j,
{
    if i < j && is_space(s[j - 1]) {
        lemma_drop_spaces(s, i, j - 1);
    }
}

/// The bounds of the text between `from` and `to` without the white space
/// at its start and, where `both` is set, at its end.
pub fn trim_bounds(s: &[char], from: usize, to: usize, start: bool, end: bool) -> (r: (usize, usize))
    requires
        from <= to <= s.len(),
    ensures
        from <= r.0 <= r.1 <= to,
        r.0 == (if start {
            skip_spaces(s@.subrange(from as int, to as int), 0) + from
        } else {
            from as int
        }),
        r.1 == drop_if(end, s@.subrange(from as int, to as int), r.0 - from) + from,
{
    let ghost part = s@.subrange(from as int, to as int);
    let mut a = from;
    if start {
        while a < to && is_whitespace(s[a])
            invariant
                from <= a <= to,
                to <= s.len(),
                part == s@.subrange(from as int, to as int),
                skip_spaces(part, 0) == skip_spaces(part, a - from),
            decreases to - a,
        {
            a += 1;
        }
    }
    let mut b = to;
    if end {
        while a < b && is_whitespace(s[b - 1])
            invariant
                a <= b <= to,
                from <= a,
                to <= s.len(),
                part == s@.subrange(from as int, to as int),
                drop_spaces(part, a - from, to - from) == drop_spaces(part, a - from, b - from),
            decreases b,
        {
            b -= 1;
        }
    }
    (a, b)
}

/// Where trimming at the end stops, or the length where it is not asked for.
pub open spec fn drop_if(end: bool, s: Seq<char>, i: int) -> int {
    if end {
        drop_spaces(s, i, s.len() as int)
    } else {
        s.len() as int
    }
}

/// The words among the first `k` characters of a text and the word under
/// way: the words that white space has ended, and the characters since the
/// last white space.
pub open spec fn words_upto(s: Seq<char>, k: int) -> (Seq<Seq<char>>, Seq<char>)
    decreases k,
{
    if k <= 0 || k > s.len() {
        (Seq::empty(), Seq::empty())
    } else {
        let before = words_upto(s, k - 1);
        if !is_space(s[k - 1]) {
            (before.0, before.1.push(s[k - 1]))
        } else if before.1.len() > 0 {
            (before.0.push(before.1), Seq::empty())
        } else {
            before
        }
    }
}

/// The words of a text: its runs of characters other than white space.
pub open spec fn words(s: Seq<char>) -> Seq<Seq<char>> {
    let all = words_upto(s, s.len() as int);
    if all.1.len() > 0 {
        all.0.push(all.1)
    } else {
        all.0
    }
}

/// Splits a text into its words.
pub fn split_words(text: &str) -> (out: Vec<String>)
    ensures
        out@.map_values(|w: String| w@) == words(text@),
{
    let s = chars_of(text);
    let mut out: Vec<String> = Vec::new();
    let mut current = String::new();
    let mut k: usize = 0;
    assert(out@.map_values(|w: String| w@) =~= words_upto(s@, 0).0);
    while k < s.len()
        invariant
            k <= s.len(),
            out@.map_values(|w: String| w@) == words_upto(s@, k as int).0,
            current@ == words_upto(s@, k as int).1,
        decreases s.len() - k,
    {
        let ghost had = out@.map_values(|w: String| w@);
        if !is_whitespace(s[k]) {
            push_char(&mut current, s[k]);
        } else if current.as_str().unicode_len() > 0 {
            let ghost word = current@;
            out.push(current);
            current = String::new();
            assert(out@.map_values(|w: String| w@) =~= had.push(word));
        }
        k += 1;
    }
    if current.as_str().unicode_len() > 0 {
        let ghost had = out@.map_values(|w: String| w@);
        let ghost word = current@;
        out.push(current);
        assert(out@.map_values(|w: String| w@) =~= had.push(word));
    }
    out
}

/// Why a text is no number.
#[derive(Clone, Copy, PartialEq, Eq, Structural, Debug)]
pub enum IntError {
    /// The text is empty.
    Empty,
    /// The text holds something other than decimal digits after an
    /// optional plus sign, or is a sign alone.
    InvalidDigit,
    /// The number does not fit.
    PosOverflow,
}

impl IntError {
    /// The error in words.
    pub open spec fn message(self) -> Seq<char> {
        match self {
            IntError::Empty => "cannot parse integer from empty string"@,
            IntError::InvalidDigit => "invalid digit found in string"@,
            IntError::PosOverflow => "number too large to fit in target type"@,
        }
    }

    /// The error in words.
    pub fn describe(self) -> (s: &'static str)
        ensures
            s@ == self.message(),
    {
        match self {
            IntError::Empty => "cannot parse integer from empty string",
            IntError::InvalidDigit => "invalid digit found in string",
            IntError::PosOverflow => "number too large to fit in target type",
        }
    }
}

/// The number that the first `k` characters of `d` spell in decimal, or
/// why they spell none: the first character that is no digit, or the first
/// digit with which the number no longer fits.
pub open spec fn number_upto(d: Seq<char>, k: int) -> Result<usize, IntError>
    decreases k,
{
    if k <= 0 || k > d.len() {
        Ok(0)
    } else {
        match number_upto(d, k - 1) {
            Err(e) => Err(e),
            Ok(v) => {
                let c = d[k - 1];
                if !('0' <= c <= '9') {
                    Err(IntError::InvalidDigit)
                } else if v * 10 + (c as u32 - 48) > usize::MAX {
                    Err(IntError::PosOverflow)
                } else {
                    Ok((v * 10 + (c as u32 - 48)) as usize)
                }
            },
        }
    }
}

/// The number that a text spells: decimal digits after an optional plus
/// sign.
pub open spec fn number_of(s: Seq<char>) -> Result<usize, IntError> {
    if s.len() == 0 {
        Err(IntError::Empty)
    } else {
        let d = if s[0] == '+' {
            s.subrange(1, s.len() as int)
        } else {
            s
        };
        if d.len() == 0 {
            Err(IntError::InvalidDigit)
        } else {
            number_upto(d, d.len() as int)
        }
    }
}

/// Reads the number that `s` spells between `from` and `to`.
pub fn parse_usize(s: &[char], from: usize, to: usize) -> (r: Result<usize, IntError>)
    requires
        from <= to <= s.len(),
    ensures
        r == number_of(s@.subrange(from as int, to as int)),
{
    let ghost text = s@.subrange(from as int, to as int);
    if from == to {
        return Err(IntError::Empty);
    }
    let first = if s[from] == '+' {
        from + 1
    } else {
        from
    };
    assert(text[0] == s@[from as int]);
    let ghost d = s@.subrange(first as int, to as int);
    assert(d =~= if text[0] == '+' {
        text.subrange(1, text.len() as int)
    } else {
        text
    });
    if first == to {
        return Err(IntError::InvalidDigit);
    }
    let mut v: usize = 0;
    let mut k = first;
    while k < to
        invariant
            from <= first <= k <= to,
            to <= s.len(),
            d == s@.subrange(first as int, to as int),
            text == s@.subrange(from as int, to as int),
            d == (if text[0] == '+' {
                text.subrange(1, text.len() as int)
            } else {
                text
            }),
            from < to,
            first < to,
            number_upto(d, k - first) == Ok::<usize, IntError>(v),
        decreases to - k,
    {
        let c = s[k];
        assert(d[k - first] == c);
        if !('0' <= c && c <= '9') {
            proof {
                assert(number_upto(d, k - first + 1) == Err::<usize, IntError>(IntError::InvalidDigit));
                lemma_number_error(d, k - first + 1, to - first);
                assert(text.len() == to - from && d.len() == to - first);
            }
            return Err(IntError::InvalidDigit);
        }
        let digit = (c as u32 - 48) as usize;
        if v > (usize::MAX - digit) / 10 {
            proof {
                assert(v * 10 + digit > usize::MAX);
                assert(number_upto(d, k - first + 1) == Err::<usize, IntError>(IntError::PosOverflow));
                lemma_number_error(d, k - first + 1, to - first);
                assert(text.len() == to - from && d.len() == to - first);
            }
            return Err(IntError::PosOverflow);
        }
        assert(v * 10 + digit <= usize::MAX);
        v = v * 10 + digit;
        k += 1;
    }
    Ok(v)
}

/// Once a prefix spells no number, no longer prefix does, and for the same
/// reason.
pub proof fn lemma_number_error(d: Seq<char>, k: int, n: int)
    requires
        0 <= k <= n <= d.len(),
        number_upto(d, k) is Err,
    ensures
        number_upto(d, n) == number_upto(d, k),
    decreases n - k,
{
    if k < n {
        lemma_number_error(d, k, n - 1);
    }
}

/// The index of the first `c` in `s` from `i` on, the length where there
/// is none.
pub open spec fn index_of(s: Seq<char>, c: char, i: int) -> int
    decreases s.len() - i,
{
    if 0 <= i < s.len() && s[i] != c {
        index_of(s, c, i + 1)
    } else {
        i
    }
}

/// The index of the first `c` in `s` between `from` and `to`, `to` where
/// there is none.
pub fn find_char(s: &[char], c: char, from: usize, to: usize) -> (r: usize)
    requires
        from <= to <= s.len(),
    ensures
        from <= r <= to,
        r == index_of(s@.subrange(from as int, to as int), c, 0) + from,
{
    let ghost part = s@.subrange(from as int, to as int);
    let mut i = from;
    while i < to && s[i] != c
        invariant
            from <= i <= to,
            to <= s.len(),
            part == s@.subrange(from as int, to as int),
            index_of(part, c, 0) == index_of(part, c, i - from),
        decreases to - i,
    {
        i += 1;
    }
    i
}

} // verus!
