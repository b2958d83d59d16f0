use vstd::prelude::*;

verus! {

/// Relies on `String::push_str`: appends the characters of `tail`.
#[verifier::external_body]
pub(crate) fn push_str(s: &mut String, tail: &str)
    ensures
        final(s)@ == old(s)@ + tail@,
{
    s.push_str(tail)
}

/// Relies on `String::push`: appends one character.
#[verifier::external_body]
pub(crate) fn push_char(s: &mut String, c: char)
    ensures
        final(s)@ == old(s)@.push(c),
{
    s.push(c)
}

/// What `str::to_uppercase` gives for a string.
pub uninterp spec fn upper_of(s: Seq<char>) -> Seq<char>;

/// Relies on `str::to_uppercase`: the result depends on the characters alone.
#[verifier::external_body]
pub(crate) fn uppercase(s: &str) -> (r: String)
    ensures
        r@ == upper_of(s@),
{
    s.to_uppercase()
}

/// The character of a decimal digit.
pub open spec fn digit_char(d: int) -> char {
    if d == 0 { '0' }
    else if d == 1 { '1' }
    else if d == 2 { '2' }
    else if d == 3 { '3' }
    else if d == 4 { '4' }
    else if d == 5 { '5' }
    else if d == 6 { '6' }
    else if d == 7 { '7' }
    else if d == 8 { '8' }
    else { '9' }
}

/// The decimal digits of `n`, most significant first, without leading zeros.
pub open spec fn decimal(n: nat) -> Seq<char>
    decreases n,
{
    if n < 10 {
        seq![digit_char(n as int)]
    } else {
        decimal(n / 10).push(digit_char((n % 10) as int))
    }
}

fn digit(d: u32) -> (c: char)
    requires
        d < 10,
    ensures
        c == digit_char(d as int),
{
    if d == 0 { '0' }
    else if d == 1 { '1' }
    else if d == 2 { '2' }
    else if d == 3 { '3' }
    else if d == 4 { '4' }
    else if d == 5 { '5' }
    else if d == 6 { '6' }
    else if d == 7 { '7' }
    else if d == 8 { '8' }
    else { '9' }
}

/// `prefix` followed by the decimal digits of `n`.
pub fn labelled_number(prefix: &str, n: u32) -> (r: String)
    ensures
        r@ == prefix@ + decimal(n as nat),
{
    let mut digits: Vec<char> = Vec::new();
    let mut m: u32 = n;
    // `digits` holds the low digits of `n`, least significant first
    while m >= 10
        invariant
            decimal(n as nat) == decimal(m as nat) + digits@.reverse(),
        decreases m,
    {
        let ghost before = digits@;
        digits.push(digit(m % 10));
        assert(digits@.reverse() =~= seq![digit_char((m % 10) as int)] + before.reverse());
        assert(decimal(m as nat) == decimal((m / 10) as nat).push(digit_char((m % 10) as int)));
        assert(decimal(m as nat) + before.reverse() =~= decimal((m / 10) as nat) + digits@.reverse());
        m = m / 10;
    }
    digits.push(digit(m));
    let mut r = prefix.to_owned();
    let mut i: usize = digits.len();
    let ghost full = decimal(n as nat);
    assert(full =~= digits@.reverse());
    while i > 0
        invariant
            i <= digits@.len(),
            full =~= digits@.reverse(),
            r@ == prefix@ + full.subrange(0, (digits@.len() - i) as int),
        decreases i,
    {
        i -= 1;
        push_char(&mut r, digits[i]);
        assert(full.subrange(0, (digits@.len() - i) as int) =~= full.subrange(
            0,
            (digits@.len() - i - 1) as int,
        ).push(digits@[i as int]));
    }
    assert(full.subrange(0, digits@.len() as int) =~= full);
    r
}

/// `strings` in order with `separator` between each two of them.
pub open spec fn joined(strings: Seq<Seq<char>>, separator: Seq<char>) -> Seq<char>
    decreases strings.len(),
{
    if strings.len() == 0 {
        Seq::empty()
    } else if strings.len() == 1 {
        strings[0]
    } else {
        joined(strings.drop_last(), separator) + separator + strings.last()
    }
}

/// Joins `strings` with `separator` between each two of them.
pub fn join_strings(strings: &Vec<String>, separator: &str) -> (r: String)
    ensures
        r@ == joined(strings@.map_values(|s: String| s@), separator@),
{
    let ghost views = strings@.map_values(|s: String| s@);
    let mut r = String::new();
    let mut i: usize = 0;
    while i < strings.len()
        invariant
            i <= strings@.len(),
            views == strings@.map_values(|s: String| s@),
            r@ == joined(views.take(i as int), separator@),
        decreases strings.len() - i,
    {
        if i > 0 {
            push_str(&mut r, separator);
        }
        push_str(&mut r, strings[i].as_str());
        assert(views.take(i + 1).drop_last() =~= views.take(i as int));
        assert(views.take(i + 1).last() == strings@[i as int]@);
        i += 1;
    }
    assert(views.take(strings@.len() as int) =~= views);
    r
}

/// The pieces of `s` between the `'+'` characters, in order; a string with
/// no `'+'` is one piece.
pub open spec fn split_plus(s: Seq<char>) -> Seq<Seq<char>>
    decreases s.len(),
{
    if s.len() == 0 {
        seq![Seq::empty()]
    } else {
        let prev = split_plus(s.drop_last());
        if s.last() == '+' {
            prev.push(Seq::empty())
        } else {
            prev.update(prev.len() - 1, prev.last().push(s.last()))
        }
    }
}

/// Whether `s` holds no `'+'`.
pub open spec fn no_plus(s: Seq<char>) -> bool {
    forall|i: int| 0 <= i < s.len() ==> s[i] != '+'
}

/// `split_plus` never gives an empty list.
pub proof fn lemma_split_plus_nonempty(s: Seq<char>)
    ensures
        split_plus(s).len() >= 1,
    decreases s.len(),
{
    if s.len() > 0 {
        lemma_split_plus_nonempty(s.drop_last());
    }
}

/// Appending characters other than `'+'` extends the last piece.
pub proof fn lemma_split_plus_extend(s: Seq<char>, t: Seq<char>)
    requires
        no_plus(t),
    ensures
        split_plus(s + t) == split_plus(s).update(
            split_plus(s).len() - 1,
            split_plus(s).last() + t,
        ),
    decreases t.len(),
{
    lemma_split_plus_nonempty(s);
    if t.len() == 0 {
        assert(s + t =~= s);
        assert(split_plus(s).last() + t =~= split_plus(s).last());
        assert(split_plus(s).update(split_plus(s).len() - 1, split_plus(s).last()) =~= split_plus(s));
    } else {
        let t0 = t.drop_last();
        lemma_split_plus_extend(s, t0);
        assert((s + t).drop_last() =~= s + t0);
        assert((s + t).last() == t.last());
        assert(t.last() != '+');
        let p = split_plus(s);
        let prev = split_plus(s + t0);
        assert(prev == p.update(p.len() - 1, p.last() + t0));
        assert(prev.len() == p.len());
        assert(prev.last() == p.last() + t0);
        assert(split_plus(s + t) == prev.update(prev.len() - 1, prev.last().push(t.last())));
        assert((p.last() + t0).push(t.last()) =~= p.last() + t);
        assert(split_plus(s).last() + t0 + seq![t.last()] =~= split_plus(s).last() + t);
        assert(split_plus(s + t) =~= split_plus(s).update(
            split_plus(s).len() - 1,
            split_plus(s).last() + t,
        ));
    }
}

/// Two pieces without `'+'` joined by one `'+'` split back into the two pieces.
pub proof fn lemma_split_plus_pair(a: Seq<char>, b: Seq<char>)
    requires
        no_plus(a),
        no_plus(b),
    ensures
        split_plus(a + seq!['+'] + b) == seq![a, b],
{
    lemma_split_plus_extend(Seq::empty(), a);
    assert(Seq::<char>::empty() + a =~= a);
    assert(split_plus(Seq::<char>::empty()) =~= seq![Seq::<char>::empty()]);
    assert(split_plus(a) =~= seq![a]);
    let ap = a + seq!['+'];
    assert(ap.drop_last() =~= a);
    assert(split_plus(ap) =~= seq![a, Seq::empty()]);
    lemma_split_plus_extend(ap, b);
    assert(Seq::<char>::empty() + b =~= b);
    assert(split_plus(ap + b) =~= seq![a, b]);
}

} // verus!
