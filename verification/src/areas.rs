//! The 33 touch areas of the play field and their names: eight `A` areas on
//! the outer ring, eight `B` areas inside them, the centre `C`, eight `D`
//! areas between the `A` areas and eight `E` areas between the `B` areas.
use vstd::prelude::*;
use crate::protocol::SENSOR_AREA_COUNT;
use crate::text::{chars_of, same_chars, string_of};

verus! {

/// The decimal digit for `n`, for 1 to 8.
pub open spec fn digit_char(n: int) -> char {
    if n == 1 {
        '1'
    } else if n == 2 {
        '2'
    } else if n == 3 {
        '3'
    } else if n == 4 {
        '4'
    } else if n == 5 {
        '5'
    } else if n == 6 {
        '6'
    } else if n == 7 {
        '7'
    } else {
        '8'
    }
}

/// The name of area `i`: `A1`..`A8` for 0 to 7, `B1`..`B8` for 8 to 15,
/// `C` for 16, `D1`..`D8` for 17 to 24, `E1`..`E8` for 25 to 32.
pub open spec fn label_text(i: int) -> Seq<char> {
    if 0 <= i < 8 {
        seq!['A', digit_char(i + 1)]
    } else if 8 <= i < 16 {
        seq!['B', digit_char(i - 7)]
    } else if i == 16 {
        seq!['C']
    } else if 17 <= i < 25 {
        seq!['D', digit_char(i - 16)]
    } else if 25 <= i < 33 {
        seq!['E', digit_char(i - 24)]
    } else {
        seq![]
    }
}

/// The first area at or after `i` whose name is `l`.
pub open spec fn label_search(l: Seq<char>, i: int) -> Option<usize>
    decreases 33 - i,
{
    if i < 0 || i >= 33 {
        None
    } else if label_text(i) == l {
        Some(i as usize)
    } else {
        label_search(l, i + 1)
    }
}

/// The area a name stands for: its position among the area names, where the
/// centre halves `C1` and `C2` both stand for `C`.
pub open spec fn label_index(l: Seq<char>) -> Option<usize> {
    if l == seq!['C'] || l == seq!['C', '1'] || l == seq!['C', '2'] {
        label_search(seq!['C'], 0)
    } else {
        label_search(l, 0)
    }
}

fn digit(n: usize) -> (c: char)
    requires
        1 <= n <= 8,
    ensures
        c == digit_char(n as int),
{
    if n == 1 {
        '1'
    } else if n == 2 {
        '2'
    } else if n == 3 {
        '3'
    } else if n == 4 {
        '4'
    } else if n == 5 {
        '5'
    } else if n == 6 {
        '6'
    } else if n == 7 {
        '7'
    } else {
        '8'
    }
}

/// The characters of the name of area `i`.
pub fn label_chars(i: usize) -> (v: Vec<char>)
    requires
        i < SENSOR_AREA_COUNT,
    ensures
        v@ == label_text(i as int),
{
    let v = if i < 8 {
        vec!['A', digit(i + 1)]
    } else if i < 16 {
        vec!['B', digit(i - 7)]
    } else if i == 16 {
        vec!['C']
    } else if i < 25 {
        vec!['D', digit(i - 16)]
    } else {
        vec!['E', digit(i - 24)]
    };
    assert(v@ =~= label_text(i as int));
    v
}

/// The name of area `i`.
pub fn area_label(i: usize) -> (s: String)
    requires
        i < SENSOR_AREA_COUNT,
    ensures
        s@ == label_text(i as int),
{
    string_of(&label_chars(i))
}

/// The area a name stands for, if any: its position among the area names,
/// where `C`, `C1` and `C2` all stand for the centre area.
pub fn label_to_index(label: &str) -> (r: Option<usize>)
    ensures
        r == label_index(label@),
{
    let l = chars_of(label);
    let c0 = vec!['C'];
    let c1 = vec!['C', '1'];
    let c2 = vec!['C', '2'];
    assert(c0@ =~= seq!['C']);
    assert(c1@ =~= seq!['C', '1']);
    assert(c2@ =~= seq!['C', '2']);
    let is_centre = same_chars(&l, &c0) || same_chars(&l, &c1) || same_chars(&l, &c2);
    let target = if is_centre {
        vec!['C']
    } else {
        l
    };
    let mut i: usize = 0;
    while i < SENSOR_AREA_COUNT
        invariant
            i <= SENSOR_AREA_COUNT,
            label_index(label@) == label_search(target@, i as int),
        decreases SENSOR_AREA_COUNT - i,
    {
        if same_chars(&label_chars(i), &target) {
            return Some(i);
        }
        i = i + 1;
    }
    None
}

/// Two areas never share a name.
pub proof fn lemma_label_text_distinct(i: int, j: int)
    requires
        0 <= i < 33,
        0 <= j < 33,
        label_text(i) == label_text(j),
    ensures
        i == j,
{
    assert(label_text(i)[0] == label_text(j)[0]);
    assert(label_text(i).len() == label_text(j).len());
    if label_text(i).len() == 2 {
        assert(label_text(i)[1] == label_text(j)[1]);
    }
}

/// Searching from `j` finds `i` when no area in between carries its name.
pub proof fn lemma_label_search_finds(i: int, j: int)
    requires
        0 <= j <= i < 33,
    ensures
        label_search(label_text(i), j) == Some(i as usize),
    decreases i - j,
{
    if j < i {
        if label_text(j) == label_text(i) {
            lemma_label_text_distinct(i, j);
        }
        lemma_label_search_finds(i, j + 1);
    }
}

/// Every area name stands for its own area: looking up the name of area `i`
/// gives `i`.
pub proof fn lemma_label_round_trip(i: int)
    requires
        0 <= i < 33,
    ensures
        label_index(label_text(i)) == Some(i as usize),
{
    lemma_label_search_finds(i, 0);
    lemma_label_search_finds(16, 0);
    if label_text(i) == seq!['C'] || label_text(i) == seq!['C', '1'] || label_text(i) == seq!['C', '2'] {
        assert(label_text(i)[0] == 'C');
        assert(i == 16);
    }
}

} // verus!
