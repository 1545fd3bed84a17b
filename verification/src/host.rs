//! What the host decides between reading input and drawing: the run mode
//! from the command line, the held buttons and areas, and the text the
//! overlays show about them.
use vstd::prelude::*;
use crate::areas::{area_label, label_text};
use crate::protocol::{BUTTON_ZONE_COUNT, SENSOR_AREA_COUNT};

verus! {

/// What the program was asked to do.
pub enum Mode {
    /// No argument: print how to call it.
    Usage,
    /// Play the chart at this path.
    Play(String),
    /// Show the touch areas and light the held ones.
    SensorTest,
}

/// Chooses the mode from the command line (`args[0]` being the program):
/// no argument gives `Usage`, the argument `test` gives `SensorTest`, any
/// other first argument is a chart path to play.
pub fn parse_args(args: &Vec<String>) -> (m: Mode)
    ensures
        args.len() <= 1 ==> m is Usage,
        args.len() > 1 && args[1]@ == "test"@ ==> m is SensorTest,
        args.len() > 1 && args[1]@ != "test"@ ==> (m matches Mode::Play(p) && p@ == args[1]@),
{
    if args.len() <= 1 {
        return Mode::Usage;
    }
    let first = &args[1];
    if *first == "test".to_owned() {
        Mode::SensorTest
    } else {
        Mode::Play(first.clone())
    }
}

/// Which ring buttons and touch areas are held this frame.
#[derive(Clone, Copy)]
pub struct InputState {
    pub buttons: [bool; 8],
    pub sensors: [bool; 33],
}

impl Default for InputState {
    /// Nothing held.
    fn default() -> (s: InputState)
        ensures
            forall|i: int| 0 <= i < BUTTON_ZONE_COUNT ==> !(#[trigger] s.buttons@[i]),
            forall|i: int| 0 <= i < SENSOR_AREA_COUNT ==> !(#[trigger] s.sensors@[i]),
    {
        InputState { buttons: [false; 8], sensors: [false; 33] }
    }
}

/// How many entries of `s` are `true`.
pub open spec fn count_true(s: Seq<bool>) -> nat
    decreases s.len(),
{
    if s.len() == 0 {
        0
    } else {
        count_true(s.drop_last()) + if s.last() {
            1nat
        } else {
            0nat
        }
    }
}

/// How many of the given buttons or areas are held.
pub fn count_pressed(pressed: &[bool]) -> (n: usize)
    ensures
        n == count_true(pressed@),
        n == pressed@.filter(|b: bool| b).len(),
{
    proof {
        lemma_count_true_filter(pressed@);
    }
    let mut n: usize = 0;
    let mut k: usize = 0;
    while k < pressed.len()
        invariant
            k <= pressed.len(),
            n == count_true(pressed@.take(k as int)),
            n <= k,
        decreases pressed.len() - k,
    {
        assert(pressed@.take(k + 1).drop_last() =~= pressed@.take(k as int));
        if pressed[k] {
            n = n + 1;
        }
        k = k + 1;
    }
    assert(pressed@.take(k as int) =~= pressed@);
    n
}

/// Whether the area at `index` is held; an index past the list is not.
pub fn sensor_active(pressed: &[bool], index: usize) -> (r: bool)
    ensures
        r == (index < pressed@.len() && pressed@[index as int]),
{
    if index < pressed.len() {
        pressed[index]
    } else {
        false
    }
}

/// The names of the held areas, in area order; entries past the 33 areas
/// are not looked at.
pub open spec fn pressed_names(s: Seq<bool>) -> Seq<Seq<char>>
    decreases s.len(),
{
    if s.len() == 0 {
        seq![]
    } else {
        let p = pressed_names(s.drop_last());
        if s.len() - 1 < 33 && s.last() {
            p.push(label_text(s.len() - 1))
        } else {
            p
        }
    }
}

/// The names joined, with `sep` between each two.
pub open spec fn join(names: Seq<Seq<char>>, sep: Seq<char>) -> Seq<char>
    decreases names.len(),
{
    if names.len() == 0 {
        seq![]
    } else if names.len() == 1 {
        names[0]
    } else {
        join(names.drop_last(), sep) + sep + names.last()
    }
}

/// The overlay's list of held areas: their names joined by `, `, or `-`
/// when the list comes out empty.
pub open spec fn pressed_summary(s: Seq<bool>) -> Seq<char> {
    let j = join(pressed_names(s), ", "@);
    if j.len() == 0 {
        "-"@
    } else {
        j
    }
}

/// Appends the characters of `t` to `s`.
fn append_str(s: &mut String, t: &str)
    ensures
        final(s)@ == old(s)@ + t@,
{
    s.append(t);
}

/// The list of held areas that the sensor test shows.
pub fn pressed_sensor_labels(sensors: &[bool]) -> (r: String)
    ensures
        r@ == pressed_summary(sensors@),
{
    let mut out = String::new();
    let mut count: usize = 0;
    let mut k: usize = 0;
    while k < sensors.len() && k < SENSOR_AREA_COUNT
        invariant
            k <= sensors.len(),
            k <= SENSOR_AREA_COUNT,
            out@ == join(pressed_names(sensors@.take(k as int)), ", "@),
            count == pressed_names(sensors@.take(k as int)).len(),
            count <= k,
        decreases sensors.len() - k,
    {
        let ghost prev = pressed_names(sensors@.take(k as int));
        assert(sensors@.take(k + 1).drop_last() =~= sensors@.take(k as int));
        if sensors[k] {
            let label = area_label(k);
            if count > 0 {
                append_str(&mut out, ", ");
            }
            append_str(&mut out, label.as_str());
            proof {
                let names = prev.push(label_text(k as int));
                assert(names.drop_last() =~= prev);
                if count == 0 {
                    assert(out@ =~= join(names, ", "@));
                }
            }
            count = count + 1;
        }
        k = k + 1;
    }
    proof {
        lemma_pressed_names_past(sensors@, k as int);
    }
    if out.as_str().is_empty() {
        return "-".to_owned();
    }
    out
}

/// Entries past the 33 areas add no name.
proof fn lemma_pressed_names_past(s: Seq<bool>, k: int)
    requires
        0 <= k <= s.len(),
        k == s.len() || k == 33,
    ensures
        pressed_names(s) == pressed_names(s.take(k)),
    decreases s.len() - k,
{
    if k == s.len() {
        assert(s.take(k) =~= s);
    } else {
        lemma_pressed_names_past(s.drop_last(), k);
        assert(s.drop_last().take(k) =~= s.take(k));
    }
}


/// Joining names of two or more characters each never gives fewer than two
/// characters.
proof fn lemma_join_long(names: Seq<Seq<char>>, sep: Seq<char>)
    requires
        names.len() > 0,
        forall|k: int| 0 <= k < names.len() ==> (#[trigger] names[k]).len() >= 1,
    ensures
        join(names, sep).len() >= 1,
        join(names, sep)[0] == names[0][0],
    decreases names.len(),
{
    if names.len() > 1 {
        lemma_join_long(names.drop_last(), sep);
        assert(names.drop_last()[0] == names[0]);
    }
}

/// One name per held area, each at least one character long.
proof fn lemma_pressed_names_count(s: Seq<bool>)
    requires
        s.len() <= 33,
    ensures
        pressed_names(s).len() == count_true(s),
        forall|k: int| 0 <= k < pressed_names(s).len() ==> (#[trigger] pressed_names(s)[k]).len() >= 1
            && pressed_names(s)[k][0] != '-',
    decreases s.len(),
{
    if s.len() > 0 {
        lemma_pressed_names_count(s.drop_last());
        let p = pressed_names(s.drop_last());
        let i = s.len() - 1;
        if s.last() {
            assert(label_text(i).len() >= 1);
            assert forall|k: int| 0 <= k < pressed_names(s).len() implies (#[trigger] pressed_names(
                s,
            )[k]).len() >= 1 && pressed_names(s)[k][0] != '-' by {
                if k < p.len() {
                    assert(pressed_names(s)[k] == p[k]);
                }
            }
        }
    }
}

/// For the 33 areas, the sensor test's list names exactly as many areas as
/// its count of held areas, and shows `-` exactly when none is held.
pub proof fn lemma_summary_matches_count(s: Seq<bool>)
    requires
        s.len() <= 33,
    ensures
        pressed_names(s).len() == count_true(s),
        pressed_summary(s) == "-"@ <==> count_true(s) == 0,
{
    lemma_pressed_names_count(s);
    reveal_strlit("-");
    let names = pressed_names(s);
    if names.len() > 0 {
        lemma_join_long(names, ", "@);
        assert(names[0][0] != '-');
        assert(join(names, ", "@) != "-"@) by {
            assert("-"@[0] == '-');
        }
    }
    assert(names.len() == 0 ==> join(names, ", "@).len() == 0);
}


/// The count of held entries is the number of `true` entries, the length of
/// the list with every `false` entry taken out.
pub proof fn lemma_count_true_filter(s: Seq<bool>)
    ensures
        count_true(s) == s.filter(|b: bool| b).len(),
    decreases s.len(),
{
    reveal(Seq::filter);
    if s.len() > 0 {
        lemma_count_true_filter(s.drop_last());
    }
}

/// The positions among the first `n` where an area (one of the first 33) is
/// held, in ascending order.
proof fn lemma_pressed_names_prefix(s: Seq<bool>, n: int)
    requires
        0 <= n <= s.len(),
    ensures
        pressed_names(s.take(n)) == Seq::new(n as nat, |i: int| i).filter(
            |i: int| i < 33 && s[i],
        ).map_values(|i: int| label_text(i)),
    decreases n,
{
    reveal(Seq::filter);
    let p = |i: int| i < 33 && s[i];
    let idx = Seq::new(n as nat, |i: int| i);
    if n == 0 {
        assert(idx.filter(p) =~= Seq::<int>::empty());
        assert(s.take(0) =~= Seq::<bool>::empty());
    } else {
        lemma_pressed_names_prefix(s, n - 1);
        assert(s.take(n).drop_last() =~= s.take(n - 1));
        assert(s.take(n).last() == s[n - 1]);
        assert(idx.drop_last() =~= Seq::new((n - 1) as nat, |i: int| i));
        assert(idx.last() == n - 1);
        let prev = Seq::new((n - 1) as nat, |i: int| i).filter(p);
        if p(n - 1) {
            assert(idx.filter(p) == prev.push(n - 1));
            assert(idx.filter(p).map_values(|i: int| label_text(i)) =~= prev.map_values(
                |i: int| label_text(i),
            ).push(label_text(n - 1)));
        } else {
            assert(idx.filter(p) == prev);
        }
    }
}

/// The sensor test lists, in ascending area order, exactly the names
/// `label_text(i)` of the held areas `i` among the 33: the list of names is
/// the held positions mapped to their names.
pub proof fn lemma_pressed_names_are_held_labels(s: Seq<bool>)
    ensures
        pressed_names(s) == Seq::new(s.len(), |i: int| i).filter(|i: int| i < 33 && s[i]).map_values(
            |i: int| label_text(i),
        ),
{
    lemma_pressed_names_prefix(s, s.len() as int);
    assert(s.take(s.len() as int) =~= s);
}

} // verus!
