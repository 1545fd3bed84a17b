//! Which triangles each touch area is drawn with: the placed areas joined to
//! the mesh groups they use, each polygon face cut into a fan of triangles.
//! Vertices are named by position; the host rotates and scales them.
use vstd::prelude::*;
use crate::areas::{label_index, label_text, label_to_index, lemma_label_text_distinct};
use crate::obj::{group_views, MeshGroup};
use crate::scene::{
    instance_views, is_scene_name, lemma_scene_label_area, lemma_scene_names, scene_area,
    scene_model, InstanceView, SceneInstance,
};

verus! {

/// Three vertex positions.
pub type Triangle = (usize, usize, usize);

/// One area to draw: its area index, its name, its turn in degrees as
/// text, and its triangles as vertex positions.
pub struct RegionPlan {
    pub index: usize,
    pub label: String,
    pub angle_deg: String,
    pub triangles: Vec<Triangle>,
}

/// An area to draw as plain values.
pub type RegionView = (usize, Seq<char>, Seq<char>, Seq<Triangle>);

impl View for RegionPlan {
    type V = RegionView;

    open spec fn view(&self) -> RegionView {
        (self.index, self.label@, self.angle_deg@, self.triangles@)
    }
}

/// The views of a list of areas to draw.
pub open spec fn region_views(v: Seq<RegionPlan>) -> Seq<RegionView> {
    v.map_values(|x: RegionPlan| x@)
}

/// The areas the scene does not place, with the mesh group and turn each
/// is drawn with.
pub open spec fn missing_instance_views() -> Seq<InstanceView> {
    seq![
        ("A2"@, 3, "-45"@),
        ("B2"@, 4, "-45"@),
        ("C2"@, 0, "180"@),
        ("D1"@, 2, "-90"@),
        ("E1"@, 1, "-90"@),
    ]
}

/// The areas the scene does not place.
pub fn missing_instances() -> (v: Vec<SceneInstance>)
    ensures
        instance_views(v@) == missing_instance_views(),
{
    let v = vec![
        SceneInstance { label: "A2".to_owned(), group_index: 3, angle_deg: "-45".to_owned() },
        SceneInstance { label: "B2".to_owned(), group_index: 4, angle_deg: "-45".to_owned() },
        SceneInstance { label: "C2".to_owned(), group_index: 0, angle_deg: "180".to_owned() },
        SceneInstance { label: "D1".to_owned(), group_index: 2, angle_deg: "-90".to_owned() },
        SceneInstance { label: "E1".to_owned(), group_index: 1, angle_deg: "-90".to_owned() },
    ];
    assert(instance_views(v@) =~= missing_instance_views());
    v
}

/// A polygon cut into the fan of triangles around its first vertex; faces
/// with fewer than three vertices give none.
pub open spec fn fan(face: Seq<usize>) -> Seq<Triangle> {
    if face.len() < 3 {
        seq![]
    } else {
        Seq::new((face.len() - 2) as nat, |k: int| (face[0], face[k + 1], face[k + 2]))
    }
}

/// The triangles of all the faces of a group, face by face.
pub open spec fn group_triangles(faces: Seq<Seq<usize>>) -> Seq<Triangle>
    decreases faces.len(),
{
    if faces.len() == 0 {
        seq![]
    } else {
        group_triangles(faces.drop_last()) + fan(faces.last())
    }
}

/// Every vertex of every face with three or more vertices is one of the
/// first `vertex_count` vertices.
pub open spec fn faces_fit(faces: Seq<Seq<usize>>, vertex_count: nat) -> bool {
    forall|f: int, k: int|
        0 <= f < faces.len() && faces[f].len() >= 3 && 0 <= k < faces[f].len()
            ==> #[trigger] faces[f][k] < vertex_count
}

/// The area that a placed instance draws, if its group exists, its faces
/// name existing vertices and its name is an area's.
pub open spec fn region_of(inst: InstanceView, groups: Seq<Seq<Seq<usize>>>, vertex_count: nat) -> Option<RegionView> {
    if inst.1 < groups.len() && faces_fit(groups[inst.1 as int], vertex_count)
        && label_index(inst.0) is Some {
        Some((label_index(inst.0).unwrap(), inst.0, inst.2, group_triangles(groups[inst.1 as int])))
    } else {
        None
    }
}

/// The placed instances followed by each extra one whose name none before
/// it carries.
pub open spec fn selected(placed: Seq<InstanceView>, extra: Seq<InstanceView>) -> Seq<InstanceView>
    decreases extra.len(),
{
    if extra.len() == 0 {
        placed
    } else {
        let s = selected(placed, extra.drop_last());
        if exists|k: int| 0 <= k < s.len() && (#[trigger] s[k]).0 == extra.last().0 {
            s
        } else {
            s.push(extra.last())
        }
    }
}

/// The areas to draw for the placed instances and the missing ones not
/// placed: `None` if any of them cannot be drawn, or if together they have
/// no triangle at all.
pub open spec fn plan_model(vertex_count: nat, groups: Seq<Seq<Seq<usize>>>, placed: Seq<InstanceView>) -> Option<Seq<RegionView>> {
    let sel = selected(placed, missing_instance_views());
    if (forall|k: int| 0 <= k < sel.len() ==> (#[trigger] region_of(sel[k], groups, vertex_count)) is Some)
        && (exists|k: int| 0 <= k < sel.len() && (#[trigger] region_of(sel[k], groups, vertex_count)).unwrap().3.len() > 0) {
        Some(sel.map_values(|i: InstanceView| region_of(i, groups, vertex_count).unwrap()))
    } else {
        None
    }
}

/// The placed instances come first in the selection, unchanged.
pub proof fn lemma_selected_prefix(placed: Seq<InstanceView>, extra: Seq<InstanceView>)
    ensures
        placed.len() <= selected(placed, extra).len(),
        forall|k: int| 0 <= k < placed.len() ==> #[trigger] selected(placed, extra)[k] == placed[k],
    decreases extra.len(),
{
    if extra.len() > 0 {
        lemma_selected_prefix(placed, extra.drop_last());
    }
}

/// Taking more of the extra instances only adds to the end of the selection.
pub proof fn lemma_selected_grows(placed: Seq<InstanceView>, extra: Seq<InstanceView>, j: int)
    requires
        0 <= j <= extra.len(),
    ensures
        selected(placed, extra.take(j)).len() <= selected(placed, extra).len(),
        forall|k: int|
            0 <= k < selected(placed, extra.take(j)).len() ==> #[trigger] selected(placed, extra)[k]
                == selected(placed, extra.take(j))[k],
    decreases extra.len() - j,
{
    if j == extra.len() {
        assert(extra.take(j) =~= extra);
    } else {
        lemma_selected_grows(placed, extra, j + 1);
        assert(extra.take(j + 1).drop_last() =~= extra.take(j));
    }
}

/// The triangles of `faces`, or `None` if a face with three or more
/// vertices names a vertex past `vertex_count`.
fn triangles_of(faces: &Vec<Vec<usize>>, vertex_count: usize) -> (r: Option<Vec<Triangle>>)
    ensures
        r matches Some(t) ==> faces_fit(faces@.map_values(|f: Vec<usize>| f@), vertex_count as nat)
            && t@ == group_triangles(faces@.map_values(|f: Vec<usize>| f@)),
        r is None ==> !faces_fit(faces@.map_values(|f: Vec<usize>| f@), vertex_count as nat),
{
    let ghost fs = faces@.map_values(|f: Vec<usize>| f@);
    let mut tris: Vec<Triangle> = Vec::new();
    let mut f: usize = 0;
    while f < faces.len()
        invariant
            f <= faces.len(),
            fs == faces@.map_values(|f: Vec<usize>| f@),
            faces_fit(fs.take(f as int), vertex_count as nat),
            tris@ == group_triangles(fs.take(f as int)),
        decreases faces.len() - f,
    {
        let face = &faces[f];
        assert(fs[f as int] == face@);
        assert(fs.take(f + 1).drop_last() =~= fs.take(f as int));
        if face.len() >= 3 {
            let mut k: usize = 0;
            while k < face.len()
                invariant
                    k <= face.len(),
                    face.len() >= 3,
                    fs[f as int] == face@,
                    fs == faces@.map_values(|f: Vec<usize>| f@),
                    f < faces.len(),
                    forall|j: int| 0 <= j < k ==> face@[j] < vertex_count,
                decreases face.len() - k,
            {
                if face[k] >= vertex_count {
                    assert(fs[f as int][k as int] >= vertex_count);
                    return None;
                }
                k = k + 1;
            }
            let ghost base = tris@;
            let mut i: usize = 1;
            while i + 1 < face.len()
                invariant
                    1 <= i < face.len(),
                    face.len() >= 3,
                    tris@ == base + fan(face@).take(i - 1),
                decreases face.len() - i,
            {
                tris.push((face[0], face[i], face[i + 1]));
                assert(fan(face@).take(i as int) =~= fan(face@).take(i - 1).push(
                    (face@[0], face@[i as int], face@[i + 1]),
                ));
                i = i + 1;
            }
            assert(fan(face@).take(i - 1) =~= fan(face@));
        } else {
            assert(fan(face@) =~= Seq::<Triangle>::empty());
        }
        assert(tris@ =~= group_triangles(fs.take(f + 1)));
        f = f + 1;
    }
    assert(fs.take(f as int) =~= fs);
    Some(tris)
}

/// The area that `inst` draws, if it can be drawn.
fn region_for(inst: &SceneInstance, groups: &Vec<MeshGroup>, vertex_count: usize) -> (r: Option<RegionPlan>)
    ensures
        r matches Some(p) ==> region_of(inst@, group_views(groups@), vertex_count as nat) == Some(p@),
        r is None ==> region_of(inst@, group_views(groups@), vertex_count as nat) is None,
{
    if inst.group_index >= groups.len() {
        return None;
    }
    let group = &groups[inst.group_index];
    assert(group_views(groups@)[inst.group_index as int] == group@);
    let triangles = match triangles_of(&group.faces, vertex_count) {
        None => return None,
        Some(t) => t,
    };
    let index = match label_to_index(inst.label.as_str()) {
        None => return None,
        Some(i) => i,
    };
    Some(RegionPlan {
        index,
        label: inst.label.clone(),
        angle_deg: inst.angle_deg.clone(),
        triangles,
    })
}

/// Whether some area in `regions` carries the name `label`.
fn has_label(regions: &Vec<RegionPlan>, label: &String) -> (r: bool)
    ensures
        r == exists|k: int| 0 <= k < regions@.len() && (#[trigger] region_views(regions@)[k]).1 == label@,
{
    let mut k: usize = 0;
    while k < regions.len()
        invariant
            k <= regions.len(),
            forall|j: int| 0 <= j < k ==> (#[trigger] region_views(regions@)[j]).1 != label@,
        decreases regions.len() - k,
    {
        assert(region_views(regions@)[k as int].1 == regions@[k as int].label@);
        if regions[k].label == *label {
            return true;
        }
        k = k + 1;
    }
    false
}

/// The areas to draw: one per placed instance, in order, then one for each
/// missing area that no earlier one names; each with its area index, name,
/// turn and the fan triangles of its group's faces. `None` if an instance's
/// group does not exist, a face names a vertex past `vertex_count`, a name
/// is no area's, or no area has a triangle.
pub fn plan_regions(vertex_count: usize, groups: &Vec<MeshGroup>, instances: &Vec<SceneInstance>) -> (r: Option<Vec<RegionPlan>>)
    ensures
        r matches Some(v) ==> plan_model(vertex_count as nat, group_views(groups@), instance_views(instances@)) == Some(region_views(v@)),
        r is None ==> plan_model(vertex_count as nat, group_views(groups@), instance_views(instances@)) is None,
{
    let ghost gv = group_views(groups@);
    let ghost placed = instance_views(instances@);
    let ghost vc = vertex_count as nat;
    let ghost miss = missing_instance_views();
    proof {
        lemma_selected_prefix(placed, miss);
    }
    let ghost sel_all = selected(placed, miss);
    let mut regions: Vec<RegionPlan> = Vec::new();
    let mut k: usize = 0;
    while k < instances.len()
        invariant
            k <= instances.len(),
            placed == instance_views(instances@),
            miss == missing_instance_views(),
            gv == group_views(groups@),
            vc == vertex_count as nat,
            sel_all == selected(placed, miss),
            forall|j: int| 0 <= j < placed.len() ==> #[trigger] sel_all[j] == placed[j],
            regions@.len() == k,
            forall|j: int| 0 <= j < k ==> region_of(placed[j], gv, vc) == Some(#[trigger] region_views(regions@)[j]),
        decreases instances.len() - k,
    {
        assert(placed[k as int] == instances@[k as int]@);
        match region_for(&instances[k], groups, vertex_count) {
            None => {
                proof {
                    lemma_selected_prefix(placed, miss);
                    assert(region_of(sel_all[k as int], gv, vc) is None);
                }
                return None;
            },
            Some(p) => {
                let ghost prev = region_views(regions@);
                regions.push(p);
                assert(region_views(regions@) =~= prev.push(p@));
            },
        }
        k = k + 1;
    }
    assert(selected(placed, miss.take(0)) == placed) by {
        assert(miss.take(0) =~= Seq::<InstanceView>::empty());
    }
    let extra = missing_instances();
    let mut m: usize = 0;
    while m < extra.len()
        invariant
            m <= extra.len(),
            instance_views(extra@) == miss,
            placed == instance_views(instances@),
            miss == missing_instance_views(),
            gv == group_views(groups@),
            vc == vertex_count as nat,
            sel_all == selected(placed, miss),
            regions@.len() == selected(placed, miss.take(m as int)).len(),
            forall|j: int| 0 <= j < regions@.len() ==> region_of(
                #[trigger] selected(placed, miss.take(m as int))[j],
                gv,
                vc,
            ) == Some(region_views(regions@)[j]),
        decreases extra.len() - m,
    {
        let ghost s = selected(placed, miss.take(m as int));
        assert(miss.take(m + 1).drop_last() =~= miss.take(m as int));
        assert(miss.take(m + 1).last() == extra@[m as int]@);
        let inst = &extra[m];
        let found = has_label(&regions, &inst.label);
        proof {
            assert(found == exists|k: int| 0 <= k < s.len() && (#[trigger] s[k]).0 == inst@.0) by {
                if found {
                    let k = choose|k: int| 0 <= k < regions@.len() && (#[trigger] region_views(regions@)[k]).1 == inst.label@;
                    assert(s[k].0 == inst@.0);
                }
                if exists|k: int| 0 <= k < s.len() && (#[trigger] s[k]).0 == inst@.0 {
                    let k = choose|k: int| 0 <= k < s.len() && (#[trigger] s[k]).0 == inst@.0;
                    assert(region_views(regions@)[k].1 == inst.label@);
                }
            }
        }
        if !found {
            match region_for(inst, groups, vertex_count) {
                None => {
                    proof {
                        lemma_selected_grows(placed, miss, m + 1);
                        assert(miss.take(m + 1).drop_last() =~= miss.take(m as int));
                        assert(selected(placed, miss.take(m + 1)) == s.push(inst@));
                        assert(sel_all[s.len() as int] == inst@);
                        assert(region_of(sel_all[s.len() as int], gv, vc) is None);
                    }
                    return None;
                },
                Some(p) => {
                    let ghost prev = region_views(regions@);
                    regions.push(p);
                    assert(region_views(regions@) =~= prev.push(p@));
                },
            }
        }
        m = m + 1;
    }
    assert(miss.take(m as int) =~= miss);
    assert(forall|j: int|
        0 <= j < sel_all.len() ==> region_of(#[trigger] sel_all[j], gv, vc) == Some(
            region_views(regions@)[j],
        ));
    let mut any = false;
    let mut q: usize = 0;
    while q < regions.len()
        invariant
            q <= regions.len(),
            any == exists|j: int| 0 <= j < q && (#[trigger] region_views(regions@)[j]).3.len() > 0,
        decreases regions.len() - q,
    {
        assert(region_views(regions@)[q as int].3 == regions@[q as int].triangles@);
        if regions[q].triangles.len() > 0 {
            any = true;
        }
        q = q + 1;
    }
    if !any {
        assert(forall|j: int|
            0 <= j < sel_all.len() ==> (#[trigger] region_of(sel_all[j], gv, vc)).unwrap().3.len()
                == 0) by {
            assert(forall|j: int|
                0 <= j < regions@.len() ==> (#[trigger] region_views(regions@)[j]).3.len() == 0);
        }
        return None;
    }
    assert(region_views(regions@) =~= sel_all.map_values(|i: InstanceView| region_of(i, gv, vc).unwrap()));
    Some(regions)
}


/// Everything selected is a placed instance or an extra one.
proof fn lemma_selected_from(placed: Seq<InstanceView>, extra: Seq<InstanceView>)
    ensures
        forall|k: int|
            0 <= k < selected(placed, extra).len() ==> placed.contains(
                #[trigger] selected(placed, extra)[k],
            ) || extra.contains(selected(placed, extra)[k]),
    decreases extra.len(),
{
    if extra.len() > 0 {
        let d = extra.drop_last();
        lemma_selected_from(placed, d);
        let s = selected(placed, d);
        assert forall|k: int| 0 <= k < selected(placed, extra).len() implies placed.contains(
            #[trigger] selected(placed, extra)[k],
        ) || extra.contains(selected(placed, extra)[k]) by {
            if k < s.len() {
                assert(selected(placed, extra)[k] == s[k]);
                if d.contains(s[k]) {
                    let j = choose|j: int| 0 <= j < d.len() && d[j] == s[k];
                    assert(extra[j] == s[k]);
                }
            } else {
                assert(selected(placed, extra)[k] == extra.last());
                assert(extra[extra.len() - 1] == extra.last());
            }
        }
    }
}

/// An extra instance whose name no placed one and no earlier extra one
/// carries is selected.
proof fn lemma_selected_takes(placed: Seq<InstanceView>, extra: Seq<InstanceView>, j: int)
    requires
        0 <= j < extra.len(),
        forall|k: int| 0 <= k < placed.len() ==> (#[trigger] placed[k]).0 != extra[j].0,
        forall|k: int| 0 <= k < j ==> (#[trigger] extra[k]).0 != extra[j].0,
    ensures
        selected(placed, extra).contains(extra[j]),
    decreases extra.len(),
{
    let d = extra.drop_last();
    let s = selected(placed, d);
    if j == extra.len() - 1 {
        lemma_selected_from(placed, d);
        assert forall|k: int| 0 <= k < s.len() implies (#[trigger] s[k]).0 != extra.last().0 by {
            if placed.contains(s[k]) {
                let m = choose|m: int| 0 <= m < placed.len() && placed[m] == s[k];
                assert(placed[m].0 != extra[j].0);
            } else {
                let m = choose|m: int| 0 <= m < d.len() && d[m] == s[k];
                assert(extra[m].0 != extra[j].0);
            }
        }
        assert(selected(placed, extra) == s.push(extra.last()));
        assert(selected(placed, extra)[s.len() as int] == extra[j]);
    } else {
        assert forall|k: int| 0 <= k < j implies (#[trigger] d[k]).0 != d[j].0 by {
            assert(d[k] == extra[k]);
        }
        lemma_selected_takes(placed, d, j);
        let m = choose|m: int| 0 <= m < s.len() && s[m] == extra[j];
        lemma_selected_grows(placed, extra, extra.len() - 1);
        assert(extra.take(extra.len() - 1) =~= d);
        assert(selected(placed, extra)[m] == extra[j]);
    }
}

/// A scene numbers the `A` and `B` rings one step behind the play field and
/// leaves out the second centre half, so it never places `A2`, `B2` or
/// `C2`: whenever scene text reads, those three built-in areas are among
/// the areas to draw, each with its built-in group and turn.
pub proof fn lemma_missing_halves_selected(scene: Seq<char>)
    ensures
        scene_model(scene) matches Some(placed) ==> {
            let sel = selected(placed, missing_instance_views());
            &&& sel.contains(("A2"@, 3usize, "-45"@))
            &&& sel.contains(("B2"@, 4usize, "-45"@))
            &&& sel.contains(("C2"@, 0usize, "180"@))
        },
{
    lemma_scene_names(scene);
    reveal_strlit("A2");
    reveal_strlit("B2");
    reveal_strlit("C2");
    reveal_strlit("C1");
    if let Some(placed) = scene_model(scene) {
        let miss = missing_instance_views();
        assert forall|k: int| 0 <= k < placed.len() implies {
            &&& (#[trigger] placed[k]).0 != "A2"@
            &&& placed[k].0 != "B2"@
            &&& placed[k].0 != "C2"@
        } by {
            if k < placed.len() - 1 {
                assert(is_scene_name(placed[k].0));
                let i = choose|i: int| 0 <= i < 33 && #[trigger] label_text(scene_area(i)) == placed[k].0;
                lemma_scene_label_area(i);
                let a = scene_area(i);
                if placed[k].0 == "A2"@ {
                    assert(label_text(a) == label_text(1));
                    lemma_label_text_distinct(a, 1);
                }
                if placed[k].0 == "B2"@ {
                    assert(label_text(a) == label_text(9));
                    lemma_label_text_distinct(a, 9);
                }
                if placed[k].0 == "C2"@ {
                    assert(label_text(a)[0] == 'C');
                    assert(label_text(a).len() == 2);
                }
            } else {
                assert(placed[k] == placed.last());
                assert(placed[k].0[1] == '1');
            }
        }
        assert(miss[0].0 == "A2"@);
        lemma_selected_takes(placed, miss, 0);
        assert(miss[1].0 != miss[0].0) by {
            assert(miss[1].0[0] != miss[0].0[0]);
        }
        lemma_selected_takes(placed, miss, 1);
        assert(miss[2].0 != miss[0].0 && miss[2].0 != miss[1].0) by {
            assert(miss[2].0[0] != miss[0].0[0]);
            assert(miss[2].0[0] != miss[1].0[0]);
        }
        assert forall|k: int| 0 <= k < 2 implies (#[trigger] miss[k]).0 != miss[2].0 by {}
        lemma_selected_takes(placed, miss, 2);
    }
}


/// A face of `n` vertices is drawn as `n - 2` triangles, the `k`-th joining
/// its first vertex to vertices `k + 1` and `k + 2`, so together they cover
/// the whole polygon; a face of fewer than three vertices draws nothing.
pub proof fn lemma_fan_shape(face: Seq<usize>)
    ensures
        face.len() >= 3 ==> fan(face).len() == face.len() - 2,
        face.len() >= 3 ==> forall|k: int|
            0 <= k < face.len() - 2 ==> #[trigger] fan(face)[k] == (face[0], face[k + 1], face[k + 2]),
        face.len() < 3 ==> fan(face).len() == 0,
{
}

/// The triangles of two face lists one after the other are the triangles of
/// the first followed by those of the second.
pub proof fn lemma_group_triangles_concat(a: Seq<Seq<usize>>, b: Seq<Seq<usize>>)
    ensures
        group_triangles(a + b) == group_triangles(a) + group_triangles(b),
    decreases b.len(),
{
    if b.len() == 0 {
        assert(a + b =~= a);
        assert(group_triangles(a) + group_triangles(b) =~= group_triangles(a));
    } else {
        lemma_group_triangles_concat(a, b.drop_last());
        assert((a + b).drop_last() =~= a + b.drop_last());
        assert((a + b).last() == b.last());
        assert(group_triangles(a + b) =~= group_triangles(a) + group_triangles(b.drop_last()) + fan(
            b.last(),
        ));
        assert(group_triangles(a) + group_triangles(b) =~= group_triangles(a) + group_triangles(
            b.drop_last(),
        ) + fan(b.last()));
    }
}

/// Every face of a group contributes its whole fan, in face order: the
/// group's triangles are those of the faces before face `j`, then the fan
/// of face `j`, then those of the faces after it.
pub proof fn lemma_group_triangles_face(faces: Seq<Seq<usize>>, j: int)
    requires
        0 <= j < faces.len(),
    ensures
        group_triangles(faces) == group_triangles(faces.take(j)) + fan(faces[j])
            + group_triangles(faces.skip(j + 1)),
{
    assert(faces =~= faces.take(j) + (seq![faces[j]] + faces.skip(j + 1)));
    lemma_group_triangles_concat(faces.take(j), seq![faces[j]] + faces.skip(j + 1));
    lemma_group_triangles_concat(seq![faces[j]], faces.skip(j + 1));
    let one = seq![faces[j]];
    assert(one.drop_last() =~= Seq::<Seq<usize>>::empty());
    assert(one.last() == faces[j]);
    assert(group_triangles(one.drop_last()) == Seq::<Triangle>::empty());
    assert(group_triangles(one) =~= fan(faces[j]));
}

} // verus!
