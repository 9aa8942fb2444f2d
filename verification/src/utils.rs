//! Small helpers for writing lists of names.

use vstd::prelude::*;

verus! {

/// `String::push`: the character is appended to the string.
#[verifier::external_body]
fn push_char(s: &mut String, c: char)
    ensures
        final(s)@ == old(s)@.push(c),
{
    s.push(c)
}

/// `String::push_str`: the slice is appended to the string.
#[verifier::external_body]
fn push_str(s: &mut String, tail: &str)
    ensures
        final(s)@ == old(s)@ + tail@,
{
    s.push_str(tail)
}

/// `String::pop`: the last character is removed and returned; an empty
/// string stays empty and gives `None`.
#[verifier::external_body]
fn pop_char(s: &mut String) -> (c: Option<char>)
    ensures
        old(s)@.len() == 0 ==> c is None && final(s)@ == old(s)@,
        old(s)@.len() > 0 ==> c == Some(old(s)@.last()) && final(s)@ == old(s)@.drop_last(),
{
    s.pop()
}

/// The separator between two items.
pub open spec fn separator() -> Seq<char> {
    seq![',', ' ']
}

/// The first `k` items, each followed by the separator.
pub open spec fn each_followed(items: Seq<String>, k: nat) -> Seq<char>
    decreases k,
{
    if k == 0 || k > items.len() {
        Seq::empty()
    } else {
        each_followed(items, (k - 1) as nat) + items[k - 1]@ + separator()
    }
}

/// The first `k` items with the separator between them.
pub open spec fn separated(items: Seq<String>, k: nat) -> Seq<char>
    decreases k,
{
    if k == 0 || k > items.len() {
        Seq::empty()
    } else if k == 1 {
        items[0]@
    } else {
        separated(items, (k - 1) as nat) + separator() + items[k - 1]@
    }
}

/// `text` without its last two characters, or without all of them if it has fewer.
pub open spec fn without_last_two(text: Seq<char>) -> Seq<char> {
    if text.len() >= 2 {
        text.take(text.len() - 2)
    } else {
        Seq::empty()
    }
}

/// What [`comma_delimited`] returns: `s`, an opening bracket and every item
/// followed by the separator, then without its last two characters, then a
/// closing bracket.  With no item, the two characters that go are the
/// opening bracket and the last character of `s`.
pub open spec fn comma_delimited_text(s: Seq<char>, items: Seq<String>) -> Seq<char> {
    without_last_two(s.push('(') + each_followed(items, items.len())).push(')')
}

/// Appends to `s` the items in round brackets, with `", "` between them.
pub fn comma_delimited(s: String, items: &[String]) -> (r: String)
    ensures
        r@ == comma_delimited_text(s@, items@),
{
    let ghost start = s@;
    let mut s = s;
    push_char(&mut s, '(');
    let mut i: usize = 0;
    while i < items.len()
        invariant
            i <= items@.len(),
            s@ == start.push('(') + each_followed(items@, i as nat),
        decreases items.len() - i,
    {
        push_str(&mut s, items[i].as_str());
        proof {
            reveal_strlit(", ");
            assert(", "@ =~= separator());
        }
        push_str(&mut s, ", ");
        i = i + 1;
        assert(s@ =~= start.push('(') + each_followed(items@, i as nat));
    }
    let ghost full = s@;
    pop_char(&mut s);
    pop_char(&mut s);
    assert(s@ =~= without_last_two(full));
    push_char(&mut s, ')');
    s
}

/// What [`fmt_column_delimited`] returns: the items with the separator between
/// them, between the two ends of the container.
pub open spec fn column_delimited_text(
    items: Seq<String>,
    container_start: Seq<char>,
    container_end: Seq<char>,
) -> Seq<char> {
    container_start + separated(items, items.len()) + container_end
}

/// Writes the items with `", "` between them, between the two ends of a container.
pub fn fmt_column_delimited(items: &[String], container_start: &str, container_end: &str) -> (r: String)
    ensures
        r@ == column_delimited_text(items@, container_start@, container_end@),
{
    let mut s = String::new();
    push_str(&mut s, container_start);
    let mut i: usize = 0;
    while i < items.len()
        invariant
            i <= items@.len(),
            s@ == container_start@ + separated(items@, i as nat),
        decreases items.len() - i,
    {
        if i != 0 {
            proof {
                reveal_strlit(", ");
                assert(", "@ =~= separator());
            }
            push_str(&mut s, ", ");
        }
        push_str(&mut s, items[i].as_str());
        i = i + 1;
        assert(s@ =~= container_start@ + separated(items@, i as nat));
    }
    push_str(&mut s, container_end);
    s
}

} // verus!
