use crate::board::{BoardConfig, BoardConfigView};
use crate::scene::{Scene, SceneView};
use vstd::prelude::*;

verus! {

/// The first position at or behind `from` at which a scene of that name
/// stands, or the length of `scenes` where there is none.
pub open spec fn index_of_name(scenes: Seq<SceneView>, name: Seq<char>, from: int) -> int
    decreases scenes.len() - from,
{
    if from < 0 || from >= scenes.len() {
        scenes.len() as int
    } else if scenes[from].scene_name == name {
        from
    } else {
        index_of_name(scenes, name, from + 1)
    }
}

/// The first scene of that name, where there is one.
pub open spec fn first_named(scenes: Seq<SceneView>, name: Seq<char>) -> Option<SceneView> {
    let k = index_of_name(scenes, name, 0);
    if k < scenes.len() {
        Some(scenes[k])
    } else {
        None
    }
}

/// What stands for `current` in a comparison with `baseline`: its difference
/// from the first baseline scene of its name, or the scene itself where the
/// baseline has none.
pub open spec fn delta_entry(current: SceneView, baseline: Seq<SceneView>) -> SceneView {
    match first_named(baseline, current.scene_name) {
        Some(base) => current.minus(base),
        None => current,
    }
}

/// The comparison of `current` with `baseline`: one entry for every current
/// scene, in their order, then the baseline scenes whose name no current
/// scene has, in their order and as they are.
pub open spec fn delta_of(current: Seq<SceneView>, baseline: Seq<SceneView>) -> Seq<SceneView> {
    current.map_values(|c: SceneView| delta_entry(c, baseline)) + baseline.filter(
        |b: SceneView| first_named(current, b.scene_name) is None,
    )
}

/// Whether every difference that the comparison holds is a 32-bit number.
pub open spec fn delta_fits(current: Seq<SceneView>, baseline: Seq<SceneView>) -> bool {
    forall|i: int| 0 <= i < current.len() ==> (#[trigger] delta_entry(current[i], baseline)).fits()
}

/// What [`index_of_name`] finds is in range, has the name, and nothing before
/// it from `from` on has it.
pub proof fn lemma_index_of_name(scenes: Seq<SceneView>, name: Seq<char>, from: int)
    requires
        0 <= from <= scenes.len(),
    ensures
        from <= index_of_name(scenes, name, from) <= scenes.len(),
        index_of_name(scenes, name, from) < scenes.len() ==> scenes[index_of_name(
            scenes,
            name,
            from,
        )].scene_name == name,
        forall|j: int|
            from <= j < index_of_name(scenes, name, from) ==> (#[trigger] scenes[j]).scene_name
                != name,
    decreases scenes.len() - from,
{
    if from < scenes.len() && scenes[from].scene_name != name {
        lemma_index_of_name(scenes, name, from + 1);
    }
}

/// Whether some scene of `scenes` has the name `name`.
pub open spec fn has_name(scenes: Seq<SceneView>, name: Seq<char>) -> bool {
    exists|i: int| 0 <= i < scenes.len() && (#[trigger] scenes[i]).scene_name == name
}

/// The names that occur in `scenes`.
pub open spec fn names(scenes: Seq<SceneView>) -> Set<Seq<char>> {
    Set::new(|name: Seq<char>| has_name(scenes, name))
}

/// A scene of that name is found exactly where one occurs, and what is found
/// has the name.
pub proof fn lemma_first_named(scenes: Seq<SceneView>, name: Seq<char>)
    ensures
        first_named(scenes, name) is Some <==> has_name(scenes, name),
        first_named(scenes, name) is Some ==> first_named(scenes, name)->0.scene_name == name,
{
    lemma_index_of_name(scenes, name, 0);
    let k = index_of_name(scenes, name, 0);
    if k < scenes.len() {
        assert(scenes[k].scene_name == name);
    }
}

/// A position that holds the name, with no earlier one that does, is the one
/// that [`index_of_name`] finds.
pub proof fn lemma_index_of_name_is(scenes: Seq<SceneView>, name: Seq<char>, k: int)
    requires
        0 <= k < scenes.len(),
        scenes[k].scene_name == name,
        forall|j: int| 0 <= j < k ==> (#[trigger] scenes[j]).scene_name != name,
    ensures
        index_of_name(scenes, name, 0) == k,
{
    lemma_index_of_name(scenes, name, 0);
}

/// The shape of a comparison: its first entries stand for the current scenes,
/// one by one and under their names, and every entry behind them is a
/// baseline scene.
pub proof fn lemma_delta_shape(current: Seq<SceneView>, baseline: Seq<SceneView>)
    ensures
        delta_of(current, baseline).len() >= current.len(),
        delta_of(current, baseline).len() <= current.len() + baseline.len(),
        forall|i: int|
            0 <= i < current.len() ==> #[trigger] delta_of(current, baseline)[i] == delta_entry(
                current[i],
                baseline,
            ),
        forall|i: int|
            0 <= i < current.len() ==> (#[trigger] delta_of(current, baseline)[i]).scene_name
                == current[i].scene_name,
        forall|i: int|
            current.len() <= i < delta_of(current, baseline).len() ==> baseline.contains(
                #[trigger] delta_of(current, baseline)[i],
            ) && !has_name(current, delta_of(current, baseline)[i].scene_name),
{
    let only_base = |b: SceneView| first_named(current, b.scene_name) is None;
    let tail = baseline.filter(only_base);
    let all = delta_of(current, baseline);
    baseline.lemma_filter_len(only_base);
    assert forall|i: int| current.len() <= i < all.len() implies baseline.contains(
        #[trigger] all[i],
    ) && !has_name(current, all[i].scene_name) by {
        let k = i - current.len();
        assert(all[i] == tail[k]);
        assert(tail.contains(tail[k]));
        baseline.lemma_filter_contains_rev(only_base, tail[k]);
        baseline.lemma_filter_pred(only_base, k);
        lemma_first_named(current, tail[k].scene_name);
    }
}

/// Comparing a run with itself yields, for every scene, an entry of the same
/// name whose metrics are all zero, and nothing more. This holds of the runs
/// in which scenes of one name have the same metrics: a scene that differs
/// from the first of its name is compared with that first one.
pub proof fn lemma_delta_identity(scenes: Seq<SceneView>)
    requires
        forall|i: int|
            0 <= i < scenes.len() ==> (#[trigger] scenes[i]).minus(
                first_named(scenes, scenes[i].scene_name)->0,
            ).is_zero(),
    ensures
        delta_of(scenes, scenes).len() == scenes.len(),
        forall|i: int|
            0 <= i < scenes.len() ==> (#[trigger] delta_of(scenes, scenes)[i]).scene_name
                == scenes[i].scene_name && delta_of(scenes, scenes)[i].is_zero(),
{
    let only_base = |b: SceneView| first_named(scenes, b.scene_name) is None;
    assert forall|i: int| 0 <= i < scenes.len() implies !only_base(#[trigger] scenes[i]) by {
        lemma_first_named(scenes, scenes[i].scene_name);
    }
    assert(scenes.all(|b: SceneView| !only_base(b)));
    scenes.lemma_all_neg_filter_empty(only_base);
    assert forall|i: int| 0 <= i < scenes.len() implies (#[trigger] delta_of(
        scenes,
        scenes,
    )[i]).scene_name == scenes[i].scene_name && delta_of(scenes, scenes)[i].is_zero() by {
        lemma_first_named(scenes, scenes[i].scene_name);
        assert(scenes[i].minus(first_named(scenes, scenes[i].scene_name)->0).is_zero());
    }
}

/// Exchanging the two runs negates the differences: for a name that both runs
/// hold, the first entry of that name in the comparison of `a` with `b` has
/// the negated metrics of the first such entry in the comparison of `b` with
/// `a`.
pub proof fn lemma_delta_antisymmetry(a: Seq<SceneView>, b: Seq<SceneView>, name: Seq<char>)
    requires
        has_name(a, name),
        has_name(b, name),
    ensures
        first_named(delta_of(a, b), name) is Some,
        first_named(delta_of(b, a), name) is Some,
        first_named(delta_of(a, b), name)->0.negates(first_named(delta_of(b, a), name)->0),
        first_named(delta_of(a, b), name)->0 == first_named(a, name)->0.minus(
            first_named(b, name)->0,
        ),
{
    lemma_first_named(a, name);
    lemma_first_named(b, name);
    lemma_index_of_name(a, name, 0);
    lemma_index_of_name(b, name, 0);
    lemma_delta_shape(a, b);
    lemma_delta_shape(b, a);
    let ia = index_of_name(a, name, 0);
    let ib = index_of_name(b, name, 0);
    let ab = delta_of(a, b);
    let ba = delta_of(b, a);
    assert forall|j: int| 0 <= j < ia implies (#[trigger] ab[j]).scene_name != name by {
        assert(a[j].scene_name != name);
    }
    assert(ab[ia].scene_name == a[ia].scene_name);
    lemma_index_of_name_is(ab, name, ia);
    assert forall|j: int| 0 <= j < ib implies (#[trigger] ba[j]).scene_name != name by {
        assert(b[j].scene_name != name);
    }
    assert(ba[ib].scene_name == b[ib].scene_name);
    lemma_index_of_name_is(ba, name, ib);
}

/// A comparison holds the names of both runs and no other. A current scene
/// whose name the baseline lacks stands at its own position as it is, and a
/// baseline scene whose name the current run lacks occurs as it is.
pub proof fn lemma_delta_names(current: Seq<SceneView>, baseline: Seq<SceneView>)
    ensures
        names(delta_of(current, baseline)) == names(current).union(names(baseline)),
        forall|i: int|
            0 <= i < current.len() && !has_name(baseline, (#[trigger] current[i]).scene_name)
                ==> delta_of(current, baseline)[i] == current[i],
        forall|j: int|
            0 <= j < baseline.len() && !has_name(current, (#[trigger] baseline[j]).scene_name)
                ==> delta_of(current, baseline).contains(baseline[j]),
{
    let only_base = |b: SceneView| first_named(current, b.scene_name) is None;
    let head = current.map_values(|c: SceneView| delta_entry(c, baseline));
    let tail = baseline.filter(only_base);
    let all = delta_of(current, baseline);
    lemma_delta_shape(current, baseline);
    assert forall|i: int|
        0 <= i < current.len() && !has_name(
            baseline,
            (#[trigger] current[i]).scene_name,
        ) implies all[i] == current[i] by {
        lemma_first_named(baseline, current[i].scene_name);
    }
    assert forall|j: int|
        0 <= j < baseline.len() && !has_name(
            current,
            (#[trigger] baseline[j]).scene_name,
        ) implies all.contains(baseline[j]) by {
        lemma_first_named(current, baseline[j].scene_name);
        baseline.lemma_filter_contains(only_base, j);
        let k = choose|k: int| 0 <= k < tail.len() && tail[k] == baseline[j];
        assert(all[current.len() + k] == baseline[j]);
    }
    assert forall|name: Seq<char>| has_name(all, name) implies has_name(current, name) || has_name(
        baseline,
        name,
    ) by {
        let k = choose|k: int| 0 <= k < all.len() && (#[trigger] all[k]).scene_name == name;
        if k < current.len() {
            assert(current[k].scene_name == name);
        } else {
            assert(baseline.contains(all[k]));
            let j = choose|j: int| 0 <= j < baseline.len() && baseline[j] == all[k];
            assert(baseline[j].scene_name == name);
        }
    }
    assert forall|name: Seq<char>| has_name(current, name) || has_name(
        baseline,
        name,
    ) implies has_name(all, name) by {
        if has_name(current, name) {
            let i = choose|i: int|
                0 <= i < current.len() && (#[trigger] current[i]).scene_name == name;
            assert(all[i].scene_name == name);
        } else {
            let j = choose|j: int|
                0 <= j < baseline.len() && (#[trigger] baseline[j]).scene_name == name;
            assert(all.contains(baseline[j]));
            let k = choose|k: int| 0 <= k < all.len() && all[k] == baseline[j];
            assert(all[k].scene_name == name);
        }
    }
    assert(names(all) =~= names(current).union(names(baseline)));
}

/// Looks for the first scene named `name`.
pub fn find_scene(scenes: &Vec<Scene>, name: &String) -> (found: Option<usize>)
    ensures
        match found {
            Some(k) => k < scenes@.len() && k == index_of_name(scenes.deep_view(), name@, 0),
            None => index_of_name(scenes.deep_view(), name@, 0) == scenes@.len(),
        },
{
    let mut k: usize = 0;
    while k < scenes.len()
        invariant
            k <= scenes@.len(),
            scenes.deep_view().len() == scenes@.len(),
            index_of_name(scenes.deep_view(), name@, 0) == index_of_name(
                scenes.deep_view(),
                name@,
                k as int,
            ),
        decreases scenes@.len() - k,
    {
        assert(scenes.deep_view()[k as int] == scenes@[k as int]@);
        if scenes[k].scene_name == *name {
            return Some(k);
        }
        k += 1;
    }
    None
}

/// Compares the scenes of a run with those of a baseline, by name.
///
/// Every scene of `a` yields one entry, in the order of `a`: where `b` has a
/// scene of that name, the entry holds the differences from the first such
/// scene, and otherwise the scene of `a` as it is. The scenes of `b` whose
/// name `a` lacks follow, in the order of `b` and as they are. So the result
/// holds the names of both and no other.
///
/// The differences must be 32-bit numbers: [`delta_in_range`] tells whether
/// they are.
pub fn calculate_delta(a: &Vec<Scene>, b: &Vec<Scene>) -> (result: Vec<Scene>)
    requires
        delta_fits(a.deep_view(), b.deep_view()),
    ensures
        result.deep_view() == delta_of(a.deep_view(), b.deep_view()),
        names(result.deep_view()) == names(a.deep_view()).union(names(b.deep_view())),
        forall|i: int|
            0 <= i < a@.len() && !has_name(b.deep_view(), (#[trigger] a.deep_view()[i]).scene_name)
                ==> result.deep_view()[i] == a.deep_view()[i],
        forall|j: int|
            0 <= j < b@.len() && !has_name(a.deep_view(), (#[trigger] b.deep_view()[j]).scene_name)
                ==> result.deep_view().contains(b.deep_view()[j]),
{
    let ghost cur = a.deep_view();
    let ghost base = b.deep_view();
    let ghost entry = |c: SceneView| delta_entry(c, base);
    let ghost only_base = |s: SceneView| first_named(cur, s.scene_name) is None;
    let mut result: Vec<Scene> = Vec::new();
    let mut i: usize = 0;
    while i < a.len()
        invariant
            i <= a@.len(),
            cur == a.deep_view(),
            base == b.deep_view(),
            entry == |c: SceneView| delta_entry(c, base),
            delta_fits(cur, base),
            result.deep_view() == cur.take(i as int).map_values(entry),
        decreases a@.len() - i,
    {
        let a_scene = &a[i];
        let ghost before = result.deep_view();
        assert(cur[i as int] == a_scene@);
        assert(delta_entry(cur[i as int], base).fits());
        let next = match find_scene(b, &a_scene.scene_name) {
            Some(k) => {
                let b_scene = &b[k];
                assert(base[k as int] == b_scene@);
                Scene {
                    scene_name: a_scene.scene_name.clone(),
                    avg_cpu: a_scene.avg_cpu - b_scene.avg_cpu,
                    avg_fps: a_scene.avg_fps - b_scene.avg_fps,
                    avg_time: a_scene.avg_time - b_scene.avg_time,
                    render_time: a_scene.render_time - b_scene.render_time,
                    flush_time: a_scene.flush_time - b_scene.flush_time,
                }
            },
            None => a_scene.clone(),
        };
        assert(next@ == entry(cur[i as int]));
        result.push(next);
        assert(result.deep_view() == before.push(next@));
        assert(cur.take(i + 1).map_values(entry) == cur.take(i as int).map_values(entry).push(
            entry(cur[i as int]),
        ));
        i += 1;
    }
    assert(cur.take(a@.len() as int) == cur);
    let ghost head = cur.map_values(entry);
    let mut j: usize = 0;
    assert(base.take(0).filter(only_base) == Seq::<SceneView>::empty()) by {
        reveal(Seq::filter);
    }
    assert(head + Seq::<SceneView>::empty() == head);
    while j < b.len()
        invariant
            j <= b@.len(),
            cur == a.deep_view(),
            base == b.deep_view(),
            only_base == |s: SceneView| first_named(cur, s.scene_name) is None,
            result.deep_view() == head + base.take(j as int).filter(only_base),
        decreases b@.len() - j,
    {
        let b_scene = &b[j];
        let ghost before = result.deep_view();
        let ghost kept = base.take(j as int).filter(only_base);
        assert(base[j as int] == b_scene@);
        proof {
            assert(base.take(j + 1) == base.take(j as int).push(base[j as int]));
            base.take(j as int).lemma_filter_push(base[j as int], only_base);
        }
        match find_scene(a, &b_scene.scene_name) {
            Some(_) => {},
            None => {
                let next = b_scene.clone();
                result.push(next);
                assert(result.deep_view() == before.push(next@));
                assert((head + kept).push(next@) == head + kept.push(next@));
            },
        }
        j += 1;
    }
    assert(base.take(b@.len() as int) == base);
    proof {
        lemma_delta_names(cur, base);
    }
    result
}

/// The first position at or behind `from` at which the results of the board
/// `id` stand, or the length of `results` where there are none.
pub open spec fn index_of_board(
    results: Seq<(BoardConfigView, Seq<SceneView>)>,
    id: u128,
    from: int,
) -> int
    decreases results.len() - from,
{
    if from < 0 || from >= results.len() {
        results.len() as int
    } else if results[from].0.id == id {
        from
    } else {
        index_of_board(results, id, from + 1)
    }
}

/// The scenes of the first results of the board `id`, where there are any.
pub open spec fn baseline_of(results: Seq<(BoardConfigView, Seq<SceneView>)>, id: u128) -> Option<
    Seq<SceneView>,
> {
    let k = index_of_board(results, id, 0);
    if k < results.len() {
        Some(results[k].1)
    } else {
        None
    }
}

/// The comparison that stands for the scenes `scenes` of the board `id`:
/// with the baseline of that board, or, where it has none, the scenes
/// themselves.
pub open spec fn board_delta(
    id: u128,
    scenes: Seq<SceneView>,
    previous: Seq<(BoardConfigView, Seq<SceneView>)>,
) -> Seq<SceneView> {
    match baseline_of(previous, id) {
        Some(baseline) => delta_of(scenes, baseline),
        None => scenes,
    }
}

/// For every board of `new`, in their order: the board, its scenes as they
/// are, and their comparison with the baseline of that board.
pub open spec fn result_delta_of(
    new: Seq<(BoardConfigView, Seq<SceneView>)>,
    previous: Seq<(BoardConfigView, Seq<SceneView>)>,
) -> Seq<(BoardConfigView, Seq<SceneView>, Seq<SceneView>)> {
    new.map_values(
        |entry: (BoardConfigView, Seq<SceneView>)|
            (entry.0, entry.1, board_delta(entry.0.id, entry.1, previous)),
    )
}

/// Whether every difference that the comparisons hold is a 32-bit number.
pub open spec fn result_delta_fits(
    new: Seq<(BoardConfigView, Seq<SceneView>)>,
    previous: Seq<(BoardConfigView, Seq<SceneView>)>,
) -> bool {
    forall|i: int|
        0 <= i < new.len() ==> match baseline_of(previous, (#[trigger] new[i]).0.id) {
            Some(baseline) => delta_fits(new[i].1, baseline),
            None => true,
        }
}

/// Looks for the first results of the board `id`.
pub fn find_board(results: &Vec<(BoardConfig, Vec<Scene>)>, id: u128) -> (found: Option<usize>)
    ensures
        match found {
            Some(k) => k < results@.len() && k == index_of_board(results.deep_view(), id, 0),
            None => index_of_board(results.deep_view(), id, 0) == results@.len(),
        },
{
    let mut k: usize = 0;
    while k < results.len()
        invariant
            k <= results@.len(),
            results.deep_view().len() == results@.len(),
            index_of_board(results.deep_view(), id, 0) == index_of_board(
                results.deep_view(),
                id,
                k as int,
            ),
        decreases results@.len() - k,
    {
        assert(results.deep_view()[k as int] == results@[k as int].deep_view());
        if results[k].0.id == id {
            return Some(k);
        }
        k += 1;
    }
    None
}

/// Compares the results of a run with those of an earlier one, board by
/// board.
///
/// Every board of `new_results` yields one entry, in their order: the board,
/// its scenes, and their comparison with the scenes that `previous_results`
/// holds first for a board of the same identifier. A board without earlier
/// results is compared with nothing: its comparison is its scenes.
pub fn calculate_result_delta(
    new_results: Vec<(BoardConfig, Vec<Scene>)>,
    previous_results: &Vec<(BoardConfig, Vec<Scene>)>,
) -> (result: Vec<(BoardConfig, Vec<Scene>, Vec<Scene>)>)
    requires
        result_delta_fits(new_results.deep_view(), previous_results.deep_view()),
    ensures
        result.deep_view() == result_delta_of(
            new_results.deep_view(),
            previous_results.deep_view(),
        ),
{
    let ghost new = new_results.deep_view();
    let ghost previous = previous_results.deep_view();
    let ghost entry_of = |entry: (BoardConfigView, Seq<SceneView>)|
        (entry.0, entry.1, board_delta(entry.0.id, entry.1, previous));
    let ghost given = new_results@;
    let mut result: Vec<(BoardConfig, Vec<Scene>, Vec<Scene>)> = Vec::new();
    assert(new.take(0).map_values(entry_of) == result.deep_view());
    for entry in it: new_results
        invariant
            it.seq() == given,
            new.len() == given.len(),
            forall|k: int| 0 <= k < given.len() ==> #[trigger] new[k] == given[k].deep_view(),
            previous == previous_results.deep_view(),
            entry_of == |entry: (BoardConfigView, Seq<SceneView>)|
                (entry.0, entry.1, board_delta(entry.0.id, entry.1, previous)),
            result_delta_fits(new, previous),
            result.deep_view() == new.take(it.index() as int).map_values(entry_of),
    {
        let ghost i = it.index() as int;
        let ghost before = result.deep_view();
        let (new_config, new_result) = entry;
        assert(new[i] == (new_config@, new_result.deep_view()));
        let delta = match find_board(previous_results, new_config.id) {
            Some(k) => {
                assert(previous[k as int] == previous_results@[k as int].deep_view());
                calculate_delta(&new_result, &previous_results[k].1)
            },
            None => new_result.clone(),
        };
        assert(delta.deep_view() == board_delta(new[i].0.id, new[i].1, previous));
        let ghost next = (new_config@, new_result.deep_view(), delta.deep_view());
        result.push((new_config, new_result, delta));
        assert(result.deep_view() == before.push(next));
        assert(new.take(i + 1).map_values(entry_of) == new.take(i).map_values(entry_of).push(
            entry_of(new[i]),
        ));
    }
    assert(new.take(new.len() as int) == new);
    result
}

/// Whether `v` is a 32-bit number.
fn fits_i32(v: i64) -> (ok: bool)
    ensures
        ok == (i32::MIN <= v <= i32::MAX),
{
    -2147483648 <= v && v <= 2147483647
}

/// Decides whether the scenes can be compared: whether every difference
/// that the comparison holds is a 32-bit number.
pub fn delta_in_range(a: &Vec<Scene>, b: &Vec<Scene>) -> (ok: bool)
    ensures
        ok == delta_fits(a.deep_view(), b.deep_view()),
{
    let ghost cur = a.deep_view();
    let ghost base = b.deep_view();
    let mut i: usize = 0;
    while i < a.len()
        invariant
            i <= a@.len(),
            cur == a.deep_view(),
            base == b.deep_view(),
            forall|k: int| 0 <= k < i ==> (#[trigger] delta_entry(cur[k], base)).fits(),
        decreases a@.len() - i,
    {
        let a_scene = &a[i];
        assert(cur[i as int] == a_scene@);
        match find_scene(b, &a_scene.scene_name) {
            Some(k) => {
                let b_scene = &b[k];
                assert(base[k as int] == b_scene@);
                let ok = fits_i32(a_scene.avg_cpu as i64 - b_scene.avg_cpu as i64) && fits_i32(
                    a_scene.avg_fps as i64 - b_scene.avg_fps as i64,
                ) && fits_i32(a_scene.avg_time as i64 - b_scene.avg_time as i64) && fits_i32(
                    a_scene.render_time as i64 - b_scene.render_time as i64,
                ) && fits_i32(a_scene.flush_time as i64 - b_scene.flush_time as i64);
                if !ok {
                    assert(!delta_entry(cur[i as int], base).fits());
                    return false;
                }
            },
            None => {},
        }
        i += 1;
    }
    true
}

/// Decides whether the results can be compared board by board: whether
/// every difference that the comparisons hold is a 32-bit number.
pub fn result_delta_in_range(
    new_results: &Vec<(BoardConfig, Vec<Scene>)>,
    previous_results: &Vec<(BoardConfig, Vec<Scene>)>,
) -> (ok: bool)
    ensures
        ok == result_delta_fits(new_results.deep_view(), previous_results.deep_view()),
{
    let ghost new = new_results.deep_view();
    let ghost previous = previous_results.deep_view();
    let mut i: usize = 0;
    while i < new_results.len()
        invariant
            i <= new_results@.len(),
            new == new_results.deep_view(),
            previous == previous_results.deep_view(),
            forall|k: int|
                0 <= k < i ==> match baseline_of(previous, (#[trigger] new[k]).0.id) {
                    Some(baseline) => delta_fits(new[k].1, baseline),
                    None => true,
                },
        decreases new_results@.len() - i,
    {
        assert(new[i as int] == new_results@[i as int].deep_view());
        match find_board(previous_results, new_results[i].0.id) {
            Some(k) => {
                assert(previous[k as int] == previous_results@[k as int].deep_view());
                if !delta_in_range(&new_results[i].1, &previous_results[k].1) {
                    return false;
                }
            },
            None => {},
        }
        i += 1;
    }
    true
}

/// The names of the scenes of `scenes` whose name `others` lacks, in their
/// order.
pub open spec fn names_only_in(scenes: Seq<SceneView>, others: Seq<SceneView>) -> Seq<Seq<char>> {
    scenes.filter(|s: SceneView| first_named(others, s.scene_name) is None).map_values(
        |s: SceneView| s.scene_name,
    )
}

/// Lists the scenes of `scenes` that have no counterpart in `others`: those
/// that a comparison of the two carries as they are.
pub fn scenes_only_in(scenes: &Vec<Scene>, others: &Vec<Scene>) -> (only: Vec<String>)
    ensures
        only.deep_view() == names_only_in(scenes.deep_view(), others.deep_view()),
{
    let ghost all = scenes.deep_view();
    let ghost rest = others.deep_view();
    let ghost alone = |s: SceneView| first_named(rest, s.scene_name) is None;
    let ghost name_of = |s: SceneView| s.scene_name;
    let mut only: Vec<String> = Vec::new();
    let mut i: usize = 0;
    assert(all.take(0).filter(alone) == Seq::<SceneView>::empty()) by {
        reveal(Seq::filter);
    }
    assert(only.deep_view() == all.take(0).filter(alone).map_values(name_of));
    while i < scenes.len()
        invariant
            i <= scenes@.len(),
            all == scenes.deep_view(),
            rest == others.deep_view(),
            alone == |s: SceneView| first_named(rest, s.scene_name) is None,
            name_of == |s: SceneView| s.scene_name,
            only.deep_view() == all.take(i as int).filter(alone).map_values(name_of),
        decreases scenes@.len() - i,
    {
        let scene = &scenes[i];
        let ghost before = only.deep_view();
        let ghost kept = all.take(i as int).filter(alone);
        assert(all[i as int] == scene@);
        proof {
            assert(all.take(i + 1) == all.take(i as int).push(all[i as int]));
            all.take(i as int).lemma_filter_push(all[i as int], alone);
        }
        match find_scene(others, &scene.scene_name) {
            Some(_) => {},
            None => {
                let name = scene.scene_name.clone();
                only.push(name);
                assert(only.deep_view() == before.push(scene@.scene_name));
                assert(kept.push(all[i as int]).map_values(name_of) == kept.map_values(
                    name_of,
                ).push(scene@.scene_name));
            },
        }
        i += 1;
    }
    assert(all.take(scenes@.len() as int) == all);
    only
}

} // verus!
