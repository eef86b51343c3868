//! Comparing and building texts.

use vstd::prelude::*;

verus! {

/// `str::starts_with` with a text as the pattern: whether `text` begins with `prefix`.
#[verifier::external_body]
pub(crate) fn starts_with(text: &str, prefix: &str) -> (r: bool)
    ensures
        r == prefix@.is_prefix_of(text@),
{
    text.starts_with(prefix)
}

/// A letter of the English alphabet as a small one, any other character as it is.
pub open spec fn lowered(c: char) -> char {
    if 'A' <= c && c <= 'Z' {
        (c as u32 + 32) as char
    } else {
        c
    }
}

/// The texts are the same but for the case of English letters.
pub open spec fn same_ignoring_case(a: Seq<char>, b: Seq<char>) -> bool {
    a.len() == b.len() && forall|i: int|
        0 <= i < a.len() ==> lowered(#[trigger] a[i]) == lowered(b[i])
}

/// `str::eq_ignore_ascii_case`: whether the texts are the same but for the case of English
/// letters.
#[verifier::external_body]
pub(crate) fn eq_ignore_ascii_case(a: &str, b: &str) -> (r: bool)
    ensures
        r == same_ignoring_case(a@, b@),
{
    a.eq_ignore_ascii_case(b)
}

/// `String::push`: puts a character behind the text.
#[verifier::external_body]
pub(crate) fn push_char(text: &mut String, c: char)
    ensures
        final(text)@ == old(text)@.push(c),
{
    text.push(c);
}

/// The texts with `separator` between each two.
pub open spec fn joined(texts: Seq<Seq<char>>, separator: Seq<char>) -> Seq<char>
    decreases texts.len(),
{
    if texts.len() == 0 {
        Seq::empty()
    } else if texts.len() == 1 {
        texts[0]
    } else {
        joined(texts.drop_last(), separator) + separator + texts.last()
    }
}

/// The characters of each text.
pub open spec fn text_views(texts: Seq<String>) -> Seq<Seq<char>> {
    Seq::new(texts.len(), |i: int| texts[i]@)
}

/// The texts with `separator` between each two.
pub fn join(texts: &Vec<String>, separator: &str) -> (r: String)
    ensures
        r@ == joined(text_views(texts@), separator@),
{
    let mut r: String = String::new();
    let ghost views = text_views(texts@);
    assert(r@ =~= joined(views.take(0), separator@));
    let mut i: usize = 0;
    while i < texts.len()
        invariant
            i <= texts.len(),
            views == text_views(texts@),
            r@ == joined(views.take(i as int), separator@),
        decreases texts.len() - i,
    {
        assert(views.take(i + 1).drop_last() =~= views.take(i as int));
        if i > 0 {
            r.append(separator);
        }
        r.append(texts[i].as_str());
        i += 1;
        assert(r@ =~= joined(views.take(i as int), separator@));
    }
    assert(views.take(i as int) =~= views);
    r
}

/// A digit as a character.
pub open spec fn digit(d: int) -> char {
    if d == 0 {
        '0'
    } else if d == 1 {
        '1'
    } else if d == 2 {
        '2'
    } else if d == 3 {
        '3'
    } else if d == 4 {
        '4'
    } else if d == 5 {
        '5'
    } else if d == 6 {
        '6'
    } else if d == 7 {
        '7'
    } else if d == 8 {
        '8'
    } else {
        '9'
    }
}

/// A number in decimal digits, the highest first.
pub open spec fn decimal(n: nat) -> Seq<char>
    decreases n,
{
    if n < 10 {
        seq![digit(n as int)]
    } else {
        decimal(n / 10).push(digit((n % 10) as int))
    }
}

fn digit_char(d: u64) -> (c: char)
    requires
        d < 10,
    ensures
        c == digit(d as int),
{
    match d {
        0 => '0',
        1 => '1',
        2 => '2',
        3 => '3',
        4 => '4',
        5 => '5',
        6 => '6',
        7 => '7',
        8 => '8',
        _ => '9',
    }
}

/// A number in decimal digits.
pub fn to_decimal(n: u64) -> (text: String)
    ensures
        text@ == decimal(n as nat),
    decreases n,
{
    let mut text: String = if n < 10 {
        String::new()
    } else {
        to_decimal(n / 10)
    };
    let ghost before = text@;
    push_char(&mut text, digit_char(n % 10));
    assert(text@ =~= decimal(n as nat));
    text
}

/// The number that a text of digits stands for, read from the left.
pub open spec fn reads_as(text: Seq<char>) -> int
    decreases text.len(),
{
    if text.len() == 0 {
        0
    } else {
        10 * reads_as(text.drop_last()) + (text.last() as int - '0' as int)
    }
}

/// A number that is written out reads as itself, in digits only, and with no zero in front.
pub proof fn law_a_written_number_reads_as_itself(n: nat)
    ensures
        reads_as(decimal(n)) == n,
        forall|i: int| 0 <= i < decimal(n).len() ==> '0' <= #[trigger] decimal(n)[i] <= '9',
        decimal(n).len() > 0,
        n > 0 ==> decimal(n)[0] != '0',
    decreases n,
{
    reveal_with_fuel(reads_as, 2);
    if n < 10 {
        assert(decimal(n).drop_last() =~= Seq::<char>::empty());
    } else {
        law_a_written_number_reads_as_itself(n / 10);
        assert(decimal(n).drop_last() =~= decimal(n / 10));
        assert(decimal(n)[0] == decimal(n / 10)[0]);
    }
}

/// Letters of either case are the same, and nothing else that differs is.
pub proof fn law_only_the_case_of_letters_is_ignored(a: Seq<char>, b: Seq<char>, i: int)
    requires
        same_ignoring_case(a, b),
        0 <= i < a.len(),
    ensures
        a.len() == b.len(),
        a[i] != b[i] ==> {
            ||| 'A' <= a[i] <= 'Z' && b[i] as int == a[i] as int + ('a' as int - 'A' as int)
            ||| 'A' <= b[i] <= 'Z' && a[i] as int == b[i] as int + ('a' as int - 'A' as int)
        },
        same_ignoring_case(b, a),
{
    assert(lowered(a[i]) == lowered(b[i]));
    assert forall|j: int| 0 <= j < b.len() implies lowered(#[trigger] b[j]) == lowered(a[j]) by {
        assert(lowered(a[j]) == lowered(b[j]));
    }
}

} // verus!
