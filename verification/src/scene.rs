//! Reading which judge-area mesh each touch area uses, and at what angle,
//! from the Unity scene text.
use vstd::prelude::*;
use crate::areas::{
    label_chars, label_index, label_text, lemma_label_round_trip, lemma_label_search_finds,
};
use crate::text::{
    between, chars_of, contains, contains_exec, extract_between, same_chars, split, split_on,
    string_of, subvec, trim, trim_exec, views,
};

verus! {

/// One placed area: its name, the mesh group it is drawn with, and its turn
/// about the vertical axis in degrees, as decimal text.
pub struct SceneInstance {
    pub label: String,
    pub group_index: usize,
    pub angle_deg: String,
}

/// A placed area as plain values: name, group, angle text.
pub type InstanceView = (Seq<char>, usize, Seq<char>);

impl View for SceneInstance {
    type V = InstanceView;

    open spec fn view(&self) -> InstanceView {
        (self.label@, self.group_index, self.angle_deg@)
    }
}

/// The views of a list of placed areas.
pub open spec fn instance_views(v: Seq<SceneInstance>) -> Seq<InstanceView> {
    v.map_values(|x: SceneInstance| x@)
}

/// The line that names a scene object after area `i`.
pub open spec fn name_key(i: int) -> Seq<char> {
    "m_Name: "@ + label_text(i) + seq!['\n']
}

/// The first area, in area order from `i`, whose name line is in `block`.
pub open spec fn first_label(block: Seq<char>, i: int) -> Option<int>
    decreases 33 - i,
{
    if i < 0 || i >= 33 {
        None
    } else if contains(block, name_key(i)) {
        Some(i)
    } else {
        first_label(block, i + 1)
    }
}

/// The next position round the ring for the digit of an `A` or `B` name:
/// 2 to 7 step up by one, 8 wraps to 1, anything else stays.
pub open spec fn next_in_ring(d: char) -> char {
    if d == '2' {
        '3'
    } else if d == '3' {
        '4'
    } else if d == '4' {
        '5'
    } else if d == '5' {
        '6'
    } else if d == '6' {
        '7'
    } else if d == '7' {
        '8'
    } else if d == '8' {
        '1'
    } else {
        d
    }
}

/// The area that a scene object named `l` stands for: the scene numbers the
/// `A` and `B` rings one step behind the play field, `A2` being `A3` and so
/// on round to `A8` being `A1`; other names stand for themselves.
pub open spec fn scene_label(l: Seq<char>) -> Seq<char> {
    if l.len() == 2 && (l[0] == 'A' || l[0] == 'B') {
        seq![l[0], next_in_ring(l[1])]
    } else {
        l
    }
}

/// The mesh group that a mesh file id stands for.
pub open spec fn mesh_family(id: Seq<char>) -> Option<usize> {
    if id == "8939266724133516769"@ {
        Some(0)
    } else if id == "-7746497135072881621"@ {
        Some(1)
    } else if id == "281315202980364329"@ {
        Some(2)
    } else if id == "6157117880141131119"@ {
        Some(3)
    } else if id == "-4909277789374002350"@ {
        Some(4)
    } else {
        None
    }
}

/// The turn about the vertical axis in an angle record `x: .., y: .., z: ..`:
/// the text after the first `:` of its third comma-separated part, trimmed;
/// `0` where there is no such part.
pub open spec fn angle_z(angle: Seq<char>) -> Seq<char> {
    let parts = split_on(angle, seq![',']);
    let z = if parts.len() > 2 {
        let q = split_on(parts[2], seq![':']);
        if q.len() > 1 {
            q[1]
        } else {
            seq!['0']
        }
    } else {
        seq!['0']
    };
    trim(z)
}

/// What one scene object block gives: `None` where the block is malformed
/// (a mesh or angle record that does not close), `Some(None)` where it is
/// not a placed area, and otherwise the area it places.
pub open spec fn block_instance(block: Seq<char>) -> Option<Option<InstanceView>> {
    match first_label(block, 0) {
        None => Some(None),
        Some(li) => if !contains(block, "MeshFilter:"@) {
            Some(None)
        } else {
            match between(block, "m_Mesh: {fileID: "@, ", guid:"@) {
                None => None,
                Some(id) => match mesh_family(id) {
                    None => Some(None),
                    Some(g) => match between(block, "m_LocalEulerAnglesHint: {x: "@, "}"@) {
                        None => None,
                        Some(a) => Some(Some((scene_label(label_text(li)), g, angle_z(a)))),
                    },
                },
            }
        },
    }
}

/// The areas that a list of blocks places, in order; `None` once a block is
/// malformed.
pub open spec fn scene_fold(blocks: Seq<Seq<char>>) -> Option<Seq<InstanceView>>
    decreases blocks.len(),
{
    if blocks.len() == 0 {
        Some(seq![])
    } else {
        match scene_fold(blocks.drop_last()) {
            None => None,
            Some(acc) => match block_instance(blocks.last()) {
                None => None,
                Some(None) => Some(acc),
                Some(Some(x)) => Some(acc.push(x)),
            },
        }
    }
}

/// The centre half that the scene never names.
pub open spec fn centre_instance() -> InstanceView {
    ("C1"@, 0, "0"@)
}

/// The areas that scene text places: one per object block (the text after
/// each `--- !u!1 ` marker), then the centre half `C1` unless the scene
/// placed it; `None` if a block is malformed.
pub open spec fn scene_model(scene: Seq<char>) -> Option<Seq<InstanceView>> {
    match scene_fold(split_on(scene, "--- !u!1 "@).drop_first()) {
        None => None,
        Some(acc) => Some(
            if exists|k: int| 0 <= k < acc.len() && (#[trigger] acc[k]).0 == "C1"@ {
                acc
            } else {
                acc.push(centre_instance())
            },
        ),
    }
}

/// A malformed block spoils every longer list of blocks.
proof fn lemma_fold_fails_on(blocks: Seq<Seq<char>>, j: int)
    requires
        0 <= j <= blocks.len(),
        scene_fold(blocks.take(j)) is None,
    ensures
        scene_fold(blocks) is None,
    decreases blocks.len() - j,
{
    if j == blocks.len() {
        assert(blocks.take(j) =~= blocks);
    } else {
        assert(blocks.take(j + 1).drop_last() =~= blocks.take(j));
        lemma_fold_fails_on(blocks, j + 1);
    }
}

fn name_key_chars(i: usize) -> (v: Vec<char>)
    requires
        i < 33,
    ensures
        v@ == name_key(i as int),
{
    let mut v = chars_of("m_Name: ");
    let mut l = label_chars(i);
    v.append(&mut l);
    v.push('\n');
    v
}

fn first_label_exec(block: &Vec<char>) -> (r: Option<usize>)
    ensures
        r matches Some(i) ==> first_label(block@, 0) == Some(i as int),
        r is None ==> first_label(block@, 0) is None,
{
    let mut i: usize = 0;
    while i < 33
        invariant
            i <= 33,
            first_label(block@, 0) == first_label(block@, i as int),
        decreases 33 - i,
    {
        if contains_exec(block, &name_key_chars(i)) {
            return Some(i);
        }
        i = i + 1;
    }
    None
}

fn next_in_ring_exec(d: char) -> (r: char)
    ensures
        r == next_in_ring(d),
{
    if d == '2' {
        '3'
    } else if d == '3' {
        '4'
    } else if d == '4' {
        '5'
    } else if d == '5' {
        '6'
    } else if d == '6' {
        '7'
    } else if d == '7' {
        '8'
    } else if d == '8' {
        '1'
    } else {
        d
    }
}

fn scene_label_exec(l: Vec<char>) -> (r: Vec<char>)
    ensures
        r@ == scene_label(l@),
{
    if l.len() == 2 && (l[0] == 'A' || l[0] == 'B') {
        let r = vec![l[0], next_in_ring_exec(l[1])];
        assert(r@ =~= scene_label(l@));
        r
    } else {
        l
    }
}

fn mesh_family_exec(id: &Vec<char>) -> (r: Option<usize>)
    ensures
        r == mesh_family(id@),
{
    if same_chars(id, &chars_of("8939266724133516769")) {
        Some(0)
    } else if same_chars(id, &chars_of("-7746497135072881621")) {
        Some(1)
    } else if same_chars(id, &chars_of("281315202980364329")) {
        Some(2)
    } else if same_chars(id, &chars_of("6157117880141131119")) {
        Some(3)
    } else if same_chars(id, &chars_of("-4909277789374002350")) {
        Some(4)
    } else {
        None
    }
}

fn angle_z_exec(angle: &Vec<char>) -> (r: Vec<char>)
    ensures
        r@ == angle_z(angle@),
{
    let comma: Vec<char> = vec![','];
    let colon: Vec<char> = vec![':'];
    assert(comma@ =~= seq![',']);
    assert(colon@ =~= seq![':']);
    let parts = split(angle, &comma);
    let z = if parts.len() > 2 {
        let q = split(&parts[2], &colon);
        if q.len() > 1 {
            subvec(&q[1], 0, q[1].len())
        } else {
            vec!['0']
        }
    } else {
        vec!['0']
    };
    proof {
        let zz = if parts.len() > 2 {
            let q = split_on(views(parts@)[2], seq![':']);
            if q.len() > 1 {
                q[1]
            } else {
                seq!['0']
            }
        } else {
            seq!['0']
        };
        assert(z@ =~= zz);
    }
    trim_exec(&z)
}

fn block_step(block: &Vec<char>) -> (r: Result<Option<SceneInstance>, ()>)
    ensures
        r matches Err(_) ==> block_instance(block@) is None,
        r matches Ok(None) ==> block_instance(block@) == Some(None::<InstanceView>),
        r matches Ok(Some(x)) ==> block_instance(block@) == Some(Some(x@)),
{
    let li = match first_label_exec(block) {
        None => return Ok(None),
        Some(li) => li,
    };
    proof {
        assert(first_label(block@, 0) == Some(li as int));
        lemma_first_label_bound(block@, 0);
    }
    if !contains_exec(block, &chars_of("MeshFilter:")) {
        return Ok(None);
    }
    let id = match extract_between(block, &chars_of("m_Mesh: {fileID: "), &chars_of(", guid:")) {
        None => return Err(()),
        Some(id) => id,
    };
    let group_index = match mesh_family_exec(&id) {
        None => return Ok(None),
        Some(g) => g,
    };
    let angle = match extract_between(
        block,
        &chars_of("m_LocalEulerAnglesHint: {x: "),
        &chars_of("}"),
    ) {
        None => return Err(()),
        Some(a) => a,
    };
    let label = scene_label_exec(label_chars(li));
    let z = angle_z_exec(&angle);
    Ok(Some(SceneInstance { label: string_of(&label), group_index, angle_deg: string_of(&z) }))
}

pub proof fn lemma_first_label_bound(block: Seq<char>, i: int)
    requires
        0 <= i,
    ensures
        first_label(block, i) matches Some(li) ==> i <= li < 33,
    decreases 33 - i,
{
    if i < 33 && !contains(block, name_key(i)) {
        lemma_first_label_bound(block, i + 1);
    }
}

/// Reads the placed areas from Unity scene text: for each object block that
/// names an area, has a mesh filter, and uses one of the five judge-area
/// meshes, the area (renumbered to the play field), its mesh group and its
/// turn; then the centre half `C1` unless the scene placed it. Fails where a
/// block's mesh or angle record does not close.
pub fn parse_scene_instances(scene: &str) -> (r: Result<Vec<SceneInstance>, ()>)
    ensures
        r matches Ok(v) ==> scene_model(scene@) == Some(instance_views(v@)),
        r is Err ==> scene_model(scene@) is None,
{
    let chars = chars_of(scene);
    let marker = chars_of("--- !u!1 ");
    proof {
        reveal_strlit("--- !u!1 ");
    }
    let blocks = split(&chars, &marker);
    let ghost bs = views(blocks@).drop_first();
    let mut instances: Vec<SceneInstance> = Vec::new();
    let mut k: usize = 1;
    assert(bs.take(0) =~= Seq::<Seq<char>>::empty());
    assert(instance_views(instances@) =~= Seq::<InstanceView>::empty());
    while k < blocks.len()
        invariant
            1 <= k,
            k <= blocks.len() || blocks.len() == 0,
            bs == views(blocks@).drop_first(),
            views(blocks@) == split_on(chars@, marker@),
            chars@ == scene@,
            marker@ == "--- !u!1 "@,
            scene_fold(bs.take(k - 1)) == Some(instance_views(instances@)),
        decreases blocks.len() - k,
    {
        let ghost prev = instance_views(instances@);
        assert(bs.take(k as int).drop_last() =~= bs.take(k - 1));
        assert(bs.take(k as int).last() == blocks@[k as int]@);
        match block_step(&blocks[k]) {
            Err(_) => {
                proof {
                    lemma_fold_fails_on(bs, k as int);
                }
                return Err(());
            },
            Ok(None) => {},
            Ok(Some(x)) => {
                instances.push(x);
                assert(instance_views(instances@) =~= prev.push(x@));
            },
        }
        k = k + 1;
    }
    proof {
        if blocks.len() > 0 {
            assert(bs.take(k - 1) =~= bs);
        } else {
            assert(bs =~= Seq::<Seq<char>>::empty());
        }
    }
    let centre = chars_of("C1");
    let mut has_centre = false;
    let mut j: usize = 0;
    while j < instances.len()
        invariant
            j <= instances.len(),
            centre@ == "C1"@,
            has_centre == exists|m: int| 0 <= m < j && (#[trigger] instance_views(instances@)[m]).0 == "C1"@,
        decreases instances.len() - j,
    {
        let l = chars_of(instances[j].label.as_str());
        assert(instance_views(instances@)[j as int].0 == l@);
        if same_chars(&l, &centre) {
            has_centre = true;
        }
        j = j + 1;
    }
    if !has_centre {
        let ghost prev = instance_views(instances@);
        let c = SceneInstance {
            label: "C1".to_owned(),
            group_index: 0,
            angle_deg: "0".to_owned(),
        };
        instances.push(c);
        assert(instance_views(instances@) =~= prev.push(centre_instance()));
    }
    Ok(instances)
}


/// The area that the scene's object named after area `i` stands for.
pub open spec fn scene_area(i: int) -> int {
    if 1 <= i < 7 {
        i + 1
    } else if i == 7 {
        0
    } else if 9 <= i < 15 {
        i + 1
    } else if i == 15 {
        8
    } else {
        i
    }
}

/// `l` is the name of one of the 33 areas.
pub open spec fn is_area_name(l: Seq<char>) -> bool {
    exists|i: int| 0 <= i < 33 && #[trigger] label_text(i) == l
}

/// `l` is a name that the scene can give an area: the renumbered name of
/// one of the 33.
pub open spec fn is_scene_name(l: Seq<char>) -> bool {
    exists|i: int| 0 <= i < 33 && #[trigger] label_text(scene_area(i)) == l
}

/// Renumbering a scene name gives the name of `scene_area`.
pub proof fn lemma_scene_label_area(i: int)
    requires
        0 <= i < 33,
    ensures
        0 <= scene_area(i) < 33,
        scene_label(label_text(i)) == label_text(scene_area(i)),
{
    assert(scene_label(label_text(i)) =~= label_text(scene_area(i)));
}

proof fn lemma_fold_names(bs: Seq<Seq<char>>)
    ensures
        scene_fold(bs) matches Some(acc) ==> forall|k: int|
            0 <= k < acc.len() ==> is_scene_name((#[trigger] acc[k]).0),
    decreases bs.len(),
{
    if bs.len() > 0 {
        lemma_fold_names(bs.drop_last());
        let b = bs.last();
        lemma_first_label_bound(b, 0);
        if let Some(li) = first_label(b, 0) {
            lemma_scene_label_area(li);
            assert(label_text(scene_area(li)) == scene_label(label_text(li)));
            if let Some(acc) = scene_fold(bs) {
                assert forall|k: int| 0 <= k < acc.len() implies is_scene_name(
                    (#[trigger] acc[k]).0,
                ) by {
                    if let Some(prev) = scene_fold(bs.drop_last()) {
                        if k < prev.len() {
                            assert(acc[k] == prev[k]);
                        } else {
                            assert(label_text(scene_area(li)) == acc[k].0);
                        }
                    }
                }
            }
        }
    }
}

/// Every area that scene text places carries the name of one of the 33
/// areas, so the centre half `C1` is always added last, and every name in
/// the list stands for an area.
pub proof fn lemma_scene_names(scene: Seq<char>)
    ensures
        scene_model(scene) matches Some(v) ==> {
            &&& v.len() >= 1
            &&& v.last() == centre_instance()
            &&& forall|k: int| 0 <= k < v.len() - 1 ==> is_scene_name((#[trigger] v[k]).0)
            &&& forall|k: int| 0 <= k < v.len() - 1 ==> is_area_name((#[trigger] v[k]).0)
            &&& forall|k: int| 0 <= k < v.len() ==> label_index((#[trigger] v[k]).0) is Some
        },
{
    let bs = split_on(scene, "--- !u!1 "@).drop_first();
    lemma_fold_names(bs);
    reveal_strlit("C1");
    if let Some(acc) = scene_fold(bs) {
        assert forall|k: int| 0 <= k < acc.len() implies is_area_name((#[trigger] acc[k]).0) by {
            let i = choose|i: int| 0 <= i < 33 && #[trigger] label_text(scene_area(i)) == acc[k].0;
            lemma_scene_label_area(i);
            assert(label_text(scene_area(i)) == acc[k].0);
        }
        assert forall|k: int| 0 <= k < acc.len() implies (#[trigger] acc[k]).0 != "C1"@ by {
            assert(is_area_name(acc[k].0));
            let i = choose|i: int| 0 <= i < 33 && #[trigger] label_text(i) == acc[k].0;
            if label_text(i) == "C1"@ {
                assert(label_text(i)[0] == 'C');
                assert(label_text(i).len() == 2);
            }
        }
        let v = acc.push(centre_instance());
        assert(v.last() == centre_instance());
        assert forall|k: int| 0 <= k < v.len() implies label_index((#[trigger] v[k]).0) is Some by {
            if k < acc.len() {
                assert(is_area_name(acc[k].0));
                let i = choose|i: int| 0 <= i < 33 && #[trigger] label_text(i) == acc[k].0;
                lemma_label_round_trip(i);
            } else {
                lemma_label_search_finds(16, 0);
                assert("C1"@ =~= seq!['C', '1']);
            }
        }
    }
}


/// The scene numbers the `A` and `B` rings one step behind the play field:
/// its `A2`..`A7` are the play field's `A3`..`A8` and its `A8` is `A1`
/// (likewise for `B`), its `A1` and `B1` keep their names, and every other
/// name stands for itself. So the scene's `A2`..`A8` land on seven different
/// areas, none of them `A2`.
pub proof fn lemma_scene_renumbering()
    ensures
        forall|i: int|
            1 <= i <= 6 ==> #[trigger] scene_label(label_text(i)) == label_text(i + 1),
        forall|i: int|
            9 <= i <= 14 ==> #[trigger] scene_label(label_text(i)) == label_text(i + 1),
        scene_label(label_text(7)) == label_text(0),
        scene_label(label_text(15)) == label_text(8),
        scene_label(label_text(0)) == label_text(0),
        scene_label(label_text(8)) == label_text(8),
        forall|i: int| 16 <= i < 33 ==> #[trigger] scene_label(label_text(i)) == label_text(i),
{
    assert forall|i: int| 1 <= i <= 6 implies #[trigger] scene_label(label_text(i)) == label_text(
        i + 1,
    ) by {
        assert(scene_label(label_text(i)) =~= label_text(i + 1));
    }
    assert forall|i: int| 9 <= i <= 14 implies #[trigger] scene_label(label_text(i)) == label_text(
        i + 1,
    ) by {
        assert(scene_label(label_text(i)) =~= label_text(i + 1));
    }
    assert(scene_label(label_text(7)) =~= label_text(0));
    assert(scene_label(label_text(15)) =~= label_text(8));
    assert(scene_label(label_text(0)) =~= label_text(0));
    assert(scene_label(label_text(8)) =~= label_text(8));
    assert forall|i: int| 16 <= i < 33 implies #[trigger] scene_label(label_text(i)) == label_text(
        i,
    ) by {
        assert(scene_label(label_text(i)) =~= label_text(i));
    }
}

} // verus!
