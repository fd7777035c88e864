//! The order in which the files of a folder are listed.
use crate::text::{chars_of, views};
use vstd::prelude::*;

verus! {

/// Whether `a` comes before `b`, compared character by character.
pub open spec fn text_less(a: Seq<char>, b: Seq<char>) -> bool
    decreases a.len(),
{
    if b.len() == 0 {
        false
    } else if a.len() == 0 {
        true
    } else if a[0] != b[0] {
        a[0] < b[0]
    } else {
        text_less(a.skip(1), b.skip(1))
    }
}

/// Whether the path `a` comes before the path `b`, compared part by part.
pub open spec fn path_less(a: Seq<Seq<char>>, b: Seq<Seq<char>>) -> bool
    decreases a.len(),
{
    if b.len() == 0 {
        false
    } else if a.len() == 0 {
        true
    } else if a[0] != b[0] {
        text_less(a[0], b[0])
    } else {
        path_less(a.skip(1), b.skip(1))
    }
}

proof fn lemma_text_order(a: Seq<char>, b: Seq<char>, c: Seq<char>)
    ensures
        text_less(a, b) ==> !text_less(b, a) && a != b,
        !text_less(a, b) && !text_less(b, a) ==> a == b,
        text_less(a, b) && text_less(b, c) ==> text_less(a, c),
        text_less(a, c) ==> text_less(a, b) || text_less(b, c),
    decreases a.len() + b.len() + c.len(),
{
    if a.len() > 0 && b.len() > 0 && c.len() > 0 {
        lemma_text_order(a.skip(1), b.skip(1), c.skip(1));
    }
    if a.len() > 0 && b.len() > 0 {
        lemma_text_order(a.skip(1), b.skip(1), Seq::empty());
        if a[0] == b[0] && a.skip(1) == b.skip(1) {
            assert(a == seq![a[0]] + a.skip(1));
            assert(b == seq![b[0]] + b.skip(1));
        }
    }
    if a.len() == 0 && b.len() == 0 {
        assert(a == b);
    }
}

/// Texts that start with parts of one length are ordered by these parts, and where they are the
/// same, by what follows.
pub proof fn equal_fronts_leave_the_rest(
    front_a: Seq<char>,
    rest_a: Seq<char>,
    front_b: Seq<char>,
    rest_b: Seq<char>,
)
    requires
        front_a.len() == front_b.len(),
    ensures
        text_less(front_a + rest_a, front_b + rest_b) <==> text_less(front_a, front_b) || (front_a
            == front_b && text_less(rest_a, rest_b)),
    decreases front_a.len(),
{
    let a = front_a + rest_a;
    let b = front_b + rest_b;
    if front_a.len() == 0 {
        assert(a == rest_a && b == rest_b);
        assert(front_a == front_b);
    } else {
        assert(a.skip(1) == front_a.skip(1) + rest_a);
        assert(b.skip(1) == front_b.skip(1) + rest_b);
        equal_fronts_leave_the_rest(front_a.skip(1), rest_a, front_b.skip(1), rest_b);
        if front_a[0] == front_b[0] && front_a.skip(1) == front_b.skip(1) {
            assert(front_a == seq![front_a[0]] + front_a.skip(1));
            assert(front_b == seq![front_b[0]] + front_b.skip(1));
        }
    }
}

/// Paths are ordered strictly and totally: of two different paths exactly one comes first, and
/// what comes before a path comes before all that follow it.
pub proof fn paths_are_ordered(a: Seq<Seq<char>>, b: Seq<Seq<char>>, c: Seq<Seq<char>>)
    ensures
        path_less(a, b) ==> !path_less(b, a) && a != b,
        !path_less(a, b) && !path_less(b, a) ==> a == b,
        path_less(a, b) && path_less(b, c) ==> path_less(a, c),
        path_less(a, c) ==> path_less(a, b) || path_less(b, c),
    decreases a.len() + b.len() + c.len(),
{
    if a.len() > 0 && b.len() > 0 && c.len() > 0 {
        lemma_text_order(a[0], b[0], c[0]);
        lemma_text_order(b[0], c[0], a[0]);
        lemma_text_order(a[0], c[0], b[0]);
        paths_are_ordered(a.skip(1), b.skip(1), c.skip(1));
    }
    if a.len() > 0 && b.len() > 0 {
        lemma_text_order(a[0], b[0], b[0]);
        paths_are_ordered(a.skip(1), b.skip(1), Seq::empty());
        if a[0] == b[0] && a.skip(1) == b.skip(1) {
            assert(a == seq![a[0]] + a.skip(1));
            assert(b == seq![b[0]] + b.skip(1));
        }
    }
    if a.len() == 0 && b.len() == 0 {
        assert(a == b);
    }
}

/// Whether `a` comes before `b`, compared character by character.
pub fn text_before(a: &str, b: &str) -> (before: bool)
    ensures
        before == text_less(a@, b@),
{
    let left = chars_of(a);
    let right = chars_of(b);
    let mut i: usize = 0;
    assert(a@.skip(0) == a@ && b@.skip(0) == b@);
    loop
        invariant
            left@ == a@,
            right@ == b@,
            i <= a@.len(),
            i <= b@.len(),
            text_less(a@.skip(i as int), b@.skip(i as int)) == text_less(a@, b@),
        decreases a@.len() - i,
    {
        if i >= right.len() {
            return false;
        }
        if i >= left.len() {
            return true;
        }
        if left[i] != right[i] {
            return left[i] < right[i];
        }
        assert(a@.skip(i as int).skip(1) == a@.skip(i + 1));
        assert(b@.skip(i as int).skip(1) == b@.skip(i + 1));
        i = i + 1;
    }
}

/// Whether the path `a` comes before the path `b`, compared part by part.
pub fn path_before(a: &Vec<String>, b: &Vec<String>) -> (before: bool)
    ensures
        before == path_less(views(a@), views(b@)),
{
    let ghost left = views(a@);
    let ghost right = views(b@);
    let mut i: usize = 0;
    assert(left.skip(0) == left && right.skip(0) == right);
    loop
        invariant
            left == views(a@),
            right == views(b@),
            i <= left.len(),
            i <= right.len(),
            path_less(left.skip(i as int), right.skip(i as int)) == path_less(left, right),
        decreases left.len() - i,
    {
        if i >= b.len() {
            return false;
        }
        if i >= a.len() {
            return true;
        }
        let ghost x = left[i as int];
        let ghost y = right[i as int];
        assert(left.skip(i as int)[0] == x && right.skip(i as int)[0] == y);
        assert(left.skip(i as int).skip(1) == left.skip(i + 1));
        assert(right.skip(i as int).skip(1) == right.skip(i + 1));
        proof {
            lemma_text_order(x, y, y);
            lemma_text_order(y, x, x);
        }
        if text_before(&a[i], &b[i]) {
            return true;
        }
        if text_before(&b[i], &a[i]) {
            return false;
        }
        i = i + 1;
    }
}

/// Texts are ordered by the first character in which they differ, and a text comes before every
/// longer one that starts with it.
pub proof fn first_difference_decides(
    front: Seq<char>,
    a: char,
    rest_a: Seq<char>,
    b: char,
    rest_b: Seq<char>,
)
    requires
        a != b,
    ensures
        text_less(front.push(a) + rest_a, front.push(b) + rest_b) <==> a < b,
        text_less(front, front.push(a) + rest_a),
        !text_less(front.push(a) + rest_a, front),
        !text_less(front, front),
{
    let one = seq![a] + rest_a;
    let other = seq![b] + rest_b;
    assert(front.push(a) + rest_a =~= front + one);
    assert(front.push(b) + rest_b =~= front + other);
    assert(front + Seq::<char>::empty() =~= front);
    equal_fronts_leave_the_rest(front, one, front, other);
    equal_fronts_leave_the_rest(front, Seq::empty(), front, one);
    equal_fronts_leave_the_rest(front, one, front, Seq::empty());
    equal_fronts_leave_the_rest(front, Seq::empty(), front, Seq::empty());
    lemma_text_order(front, front, front);
}

/// Paths are ordered by the first part in which they differ, and a path comes before every longer
/// one that starts with it.
pub proof fn first_different_part_decides(
    front: Seq<Seq<char>>,
    a: Seq<char>,
    rest_a: Seq<Seq<char>>,
    b: Seq<char>,
    rest_b: Seq<Seq<char>>,
)
    requires
        a != b,
    ensures
        path_less(front.push(a) + rest_a, front.push(b) + rest_b) <==> text_less(a, b),
        path_less(front, front.push(a) + rest_a),
        !path_less(front.push(a) + rest_a, front),
        !path_less(front, front),
    decreases front.len(),
{
    let one = front.push(a) + rest_a;
    let other = front.push(b) + rest_b;
    if front.len() == 0 {
        assert(one[0] == a && other[0] == b);
    } else {
        let inner = front.skip(1);
        first_different_part_decides(inner, a, rest_a, b, rest_b);
        assert(one.skip(1) =~= inner.push(a) + rest_a);
        assert(other.skip(1) =~= inner.push(b) + rest_b);
        assert(one[0] == front[0] && other[0] == front[0]);
    }
}

} // verus!
