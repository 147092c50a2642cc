//! The achievement levels an achievement snapshot yields, and their export.
use vstd::prelude::*;
use vstd::string::StrSliceExecFns;
use crate::structs::EventFullAchievementInfo;

verus! {

/// One step of building the exported achievement map, in order.
#[derive(Debug, Clone, Copy, PartialEq, Eq)]
pub enum AchievementStep {
    /// A completed achievement: the table entry at this index, with the
    /// table's own level.
    Completed(usize),
    /// An active achievement: the table entry at this index, with this level.
    Active(usize, u8),
    /// A completed achievement id outside the table.
    CompletedOutOfRange(i16),
    /// An active achievement id outside the table.
    ActiveOutOfRange(i16),
}

/// Whether an id names an entry of a table of `n` entries.
pub open spec fn in_table(id: i16, n: int) -> bool {
    0 <= id < n
}

/// The steps for the completed ids, one per id.
pub open spec fn completed_steps(ids: Seq<i16>, n: int) -> Seq<AchievementStep> {
    Seq::new(
        ids.len(),
        |i: int|
            if in_table(ids[i], n) {
                AchievementStep::Completed(ids[i] as usize)
            } else {
                AchievementStep::CompletedOutOfRange(ids[i])
            },
    )
}

/// The level given for the `i`-th active id, 0 when there is none.
pub open spec fn level_at(levels: Seq<u8>, i: int) -> u8 {
    if 0 <= i < levels.len() {
        levels[i]
    } else {
        0
    }
}

/// The steps for the first `k` active ids: ids outside the table are
/// reported, and ids whose level is 0 are left out.
pub open spec fn active_steps(ids: Seq<i16>, levels: Seq<u8>, n: int, k: nat) -> Seq<AchievementStep>
    decreases k,
{
    if k == 0 {
        Seq::empty()
    } else {
        let i = k - 1;
        let before = active_steps(ids, levels, n, (k - 1) as nat);
        if !in_table(ids[i], n) {
            before.push(AchievementStep::ActiveOutOfRange(ids[i]))
        } else if level_at(levels, i) == 0 {
            before
        } else {
            before.push(AchievementStep::Active(ids[i] as usize, level_at(levels, i)))
        }
    }
}

/// The steps that build the exported map from a snapshot, for a table of
/// `table_len` achievements: the completed ids first, then the active ones.
pub fn achievement_steps(ev: &EventFullAchievementInfo, table_len: usize) -> (r: Vec<AchievementStep>)
    ensures
        r@ == completed_steps(ev.completed_achievement_ids@, table_len as int) + active_steps(
            ev.active_achievement_ids@,
            ev.active_achievement_levels@,
            table_len as int,
            ev.active_achievement_ids@.len(),
        ),
{
    let ghost n = table_len as int;
    let completed = &ev.completed_achievement_ids;
    let active = &ev.active_achievement_ids;
    let levels = &ev.active_achievement_levels;
    let mut steps: Vec<AchievementStep> = Vec::new();
    let mut i: usize = 0;
    while i < completed.len()
        invariant
            n == table_len,
            i <= completed@.len(),
            steps@ == completed_steps(completed@, n).subrange(0, i as int),
        decreases completed@.len() - i,
    {
        let id = completed[i];
        if id >= 0 && (id as usize) < table_len {
            steps.push(AchievementStep::Completed(id as usize));
        } else {
            steps.push(AchievementStep::CompletedOutOfRange(id));
        }
        i = i + 1;
        assert(steps@ =~= completed_steps(completed@, n).subrange(0, i as int));
    }
    assert(completed_steps(completed@, n).subrange(0, i as int) =~= completed_steps(completed@, n));
    let ghost first = steps@;
    let mut j: usize = 0;
    while j < active.len()
        invariant
            n == table_len,
            j <= active@.len(),
            steps@ == first + active_steps(active@, levels@, n, j as nat),
        decreases active@.len() - j,
    {
        let id = active[j];
        if id >= 0 && (id as usize) < table_len {
            let level = if j < levels.len() {
                levels[j]
            } else {
                0
            };
            if level != 0 {
                steps.push(AchievementStep::Active(id as usize, level));
            }
        } else {
            steps.push(AchievementStep::ActiveOutOfRange(id));
        }
        j = j + 1;
        assert(steps@ =~= first + active_steps(active@, levels@, n, j as nat));
    }
    steps
}

/// Every step that names a table entry names one inside the table, and an
/// active step never carries level 0.
pub proof fn lemma_steps_in_table(ev: EventFullAchievementInfo, n: int)
    requires
        n >= 0,
    ensures
        ({
            let steps = completed_steps(ev.completed_achievement_ids@, n) + active_steps(
                ev.active_achievement_ids@,
                ev.active_achievement_levels@,
                n,
                ev.active_achievement_ids@.len(),
            );
            forall|i: int|
                0 <= i < steps.len() ==> match #[trigger] steps[i] {
                    AchievementStep::Completed(idx) => idx < n,
                    AchievementStep::Active(idx, level) => idx < n && level != 0,
                    _ => true,
                }
        }),
{
    lemma_active_steps_in_table(
        ev.active_achievement_ids@,
        ev.active_achievement_levels@,
        n,
        ev.active_achievement_ids@.len(),
    );
}

proof fn lemma_active_steps_in_table(ids: Seq<i16>, levels: Seq<u8>, n: int, k: nat)
    requires
        k <= ids.len(),
    ensures
        forall|i: int|
            0 <= i < active_steps(ids, levels, n, k).len() ==> match #[trigger] active_steps(ids, levels, n, k)[i] {
                AchievementStep::Completed(idx) => idx < n,
                AchievementStep::Active(idx, level) => idx < n && level != 0,
                _ => true,
            },
    decreases k,
{
    if k > 0 {
        lemma_active_steps_in_table(ids, levels, n, (k - 1) as nat);
    }
}

/// Whether name `a` comes before name `b`, comparing from position `i` on:
/// character by character in code point order, a name before any longer
/// name it begins.  This is the order of the names' UTF-8 bytes.
pub open spec fn name_lt_from(a: Seq<char>, b: Seq<char>, i: int) -> bool
    decreases a.len() - i,
{
    if i < 0 || i >= b.len() {
        false
    } else if i >= a.len() {
        true
    } else if a[i] != b[i] {
        (a[i] as int) < (b[i] as int)
    } else {
        name_lt_from(a, b, i + 1)
    }
}

/// Whether name `a` comes before name `b`.
pub open spec fn name_lt(a: Seq<char>, b: Seq<char>) -> bool {
    name_lt_from(a, b, 0)
}

proof fn lemma_name_lt_irreflexive(a: Seq<char>, i: int)
    requires
        0 <= i,
    ensures
        !name_lt_from(a, a, i),
    decreases a.len() - i,
{
    if i < a.len() {
        lemma_name_lt_irreflexive(a, i + 1);
    }
}

proof fn lemma_name_lt_transitive(a: Seq<char>, b: Seq<char>, c: Seq<char>, i: int)
    requires
        0 <= i,
        name_lt_from(a, b, i),
        name_lt_from(b, c, i),
    ensures
        name_lt_from(a, c, i),
    decreases a.len() - i,
{
    if i < a.len() && a[i] == b[i] && b[i] == c[i] {
        lemma_name_lt_transitive(a, b, c, i + 1);
    }
}

proof fn lemma_name_lt_total(a: Seq<char>, b: Seq<char>, i: int)
    requires
        0 <= i <= a.len(),
        0 <= i <= b.len(),
        a.subrange(i, a.len() as int) != b.subrange(i, b.len() as int),
    ensures
        name_lt_from(a, b, i) || name_lt_from(b, a, i),
    decreases a.len() - i,
{
    if i < a.len() && i < b.len() && a[i] == b[i] {
        if a.subrange(i + 1, a.len() as int) == b.subrange(i + 1, b.len() as int) {
            assert(a.subrange(i, a.len() as int) =~= seq![a[i]] + a.subrange(i + 1, a.len() as int));
            assert(b.subrange(i, b.len() as int) =~= seq![b[i]] + b.subrange(i + 1, b.len() as int));
        }
        lemma_name_lt_total(a, b, i + 1);
    } else if i == a.len() && i == b.len() {
        assert(a.subrange(i, a.len() as int) =~= b.subrange(i, b.len() as int));
    } else if i < a.len() && i < b.len() {
        assert((a[i] as int) != (b[i] as int));
    }
}

/// Two different names come one before the other, and no name before itself.
proof fn lemma_name_order(a: Seq<char>, b: Seq<char>)
    ensures
        !name_lt(a, a),
        name_lt(a, b) ==> !name_lt(b, a),
        a != b ==> name_lt(a, b) || name_lt(b, a),
{
    lemma_name_lt_irreflexive(a, 0);
    if name_lt(a, b) && name_lt(b, a) {
        lemma_name_lt_transitive(a, b, a, 0);
    }
    if a != b {
        assert(a.subrange(0, a.len() as int) =~= a);
        assert(b.subrange(0, b.len() as int) =~= b);
        lemma_name_lt_total(a, b, 0);
    }
}

/// Whether name `a` comes before name `b` (`name_lt`).
fn name_less(a: &String, b: &String) -> (r: bool)
    ensures
        r == name_lt(a@, b@),
{
    let la = a.as_str().unicode_len();
    let lb = b.as_str().unicode_len();
    let mut i: usize = 0;
    while i < la && i < lb
        invariant
            la == a@.len(),
            lb == b@.len(),
            i <= la,
            i <= lb,
            name_lt(a@, b@) == name_lt_from(a@, b@, i as int),
        decreases la - i,
    {
        let ca = a.as_str().get_char(i);
        let cb = b.as_str().get_char(i);
        if ca != cb {
            return (ca as u32) < (cb as u32);
        }
        i = i + 1;
    }
    i < lb
}

/// A table of names and levels as plain values.
pub open spec fn levels_model(t: Seq<(String, u8)>) -> Seq<(Seq<char>, u8)> {
    Seq::new(t.len(), |i: int| (t[i].0@, t[i].1))
}

/// The name and level a step sets, if it sets one: a completed achievement
/// the table's level, an active one its own.
pub open spec fn step_entry(step: AchievementStep, table: Seq<(Seq<char>, u8)>) -> Option<(Seq<char>, u8)> {
    match step {
        AchievementStep::Completed(i) => Some(table[i as int]),
        AchievementStep::Active(i, level) => Some((table[i as int].0, level)),
        _ => None,
    }
}

/// The levels by name after the first `n` steps: each step sets its name's
/// level, a later step overriding an earlier one.
pub open spec fn levels_after(steps: Seq<AchievementStep>, table: Seq<(Seq<char>, u8)>, n: int) -> Map<
    Seq<char>,
    u8,
>
    decreases n,
{
    if n <= 0 {
        Map::empty()
    } else {
        let m = levels_after(steps, table, n - 1);
        match step_entry(steps[n - 1], table) {
            Some(e) => m.insert(e.0, e.1),
            None => m,
        }
    }
}

/// Whether `r` lists the levels `m` by name, in name order.
pub open spec fn lists_in_order(r: Seq<(Seq<char>, u8)>, m: Map<Seq<char>, u8>) -> bool {
    &&& names_in_order(r)
    &&& forall|i: int| 0 <= i < r.len() ==> m.contains_key(#[trigger] r[i].0) && m[r[i].0] == r[i].1
    &&& forall|k: Seq<char>| #[trigger] m.contains_key(k) ==> exists|i: int| 0 <= i < r.len() && r[i].0 == k
}

/// The steps of a snapshot for a table of `n` achievements.
pub open spec fn snapshot_steps(ev: EventFullAchievementInfo, n: int) -> Seq<AchievementStep> {
    completed_steps(ev.completed_achievement_ids@, n) + active_steps(
        ev.active_achievement_ids@,
        ev.active_achievement_levels@,
        n,
        ev.active_achievement_ids@.len(),
    )
}

proof fn lemma_name_lt_trans(a: Seq<char>, b: Seq<char>, c: Seq<char>)
    requires
        name_lt(a, b),
        name_lt(b, c),
    ensures
        name_lt(a, c),
{
    lemma_name_lt_transitive(a, b, c, 0);
}

/// Sets the level of `name` in a list kept in name order.
fn insert_level(r: &mut Vec<(String, u8)>, name: String, level: u8, Ghost(m): Ghost<Map<Seq<char>, u8>>)
    requires
        lists_in_order(levels_model(old(r)@), m),
    ensures
        lists_in_order(levels_model(final(r)@), m.insert(name@, level)),
{
    let ghost rm = levels_model(r@);
    let ghost nm = name@;
    let mut i: usize = 0;
    while i < r.len() && name_less(&r[i].0, &name)
        invariant
            rm == levels_model(r@),
            nm == name@,
            i <= r@.len(),
            forall|j: int| 0 <= j < i ==> name_lt(#[trigger] rm[j].0, nm),
        decreases r@.len() - i,
    {
        i = i + 1;
    }
    let ghost m2 = m.insert(nm, level);
    if i < r.len() && r[i].0 == name {
        assert(rm[i as int].0 == nm);
        r.set(i, (name, level));
        let ghost rn = levels_model(r@);
        assert(rn =~= rm.update(i as int, (nm, level)));
        assert forall|j: int| 0 <= j < rn.len() && j != i implies #[trigger] rn[j].0 != nm by {
            lemma_name_order(rm[j].0, nm);
            if j < i {
                assert(name_lt(rm[j].0, rm[i as int].0));
            } else {
                assert(name_lt(rm[i as int].0, rm[j].0));
            }
        }
        assert forall|k: Seq<char>| #[trigger] m2.contains_key(k) implies exists|j: int|
            0 <= j < rn.len() && rn[j].0 == k by {
            if k == nm {
                assert(rn[i as int].0 == k);
            } else {
                let j = choose|j: int| 0 <= j < rm.len() && rm[j].0 == k;
                assert(rn[j].0 == k);
            }
        }
    } else {
        proof {
            if i < r@.len() {
                lemma_name_order(rm[i as int].0, nm);
            }
        }
        r.insert(i, (name, level));
        let ghost rn = levels_model(r@);
        assert(rn =~= rm.insert(i as int, (nm, level)));
        assert forall|j: int| 0 <= j < rm.len() implies #[trigger] rm[j].0 != nm by {
            lemma_name_order(rm[j].0, nm);
            if j > i {
                assert(name_lt(rm[i as int].0, rm[j].0));
                lemma_name_lt_trans(nm, rm[i as int].0, rm[j].0);
                lemma_name_order(nm, rm[j].0);
            }
        }
        assert forall|a: int, b: int| 0 <= a < b < rn.len() implies name_lt(#[trigger] rn[a].0, #[trigger] rn[b].0) by {
            if b < i {
            } else if b == i {
                assert(name_lt(rm[a].0, nm));
            } else if a < i {
                assert(name_lt(rm[a].0, nm));
                assert(rn[b] == rm[b - 1]);
                if b - 1 == i {
                } else {
                    assert(name_lt(rm[i as int].0, rm[b - 1].0));
                    lemma_name_lt_trans(nm, rm[i as int].0, rm[b - 1].0);
                }
                lemma_name_lt_trans(rm[a].0, nm, rm[b - 1].0);
            } else if a == i {
                if b - 1 == i {
                } else {
                    assert(name_lt(rm[i as int].0, rm[b - 1].0));
                    lemma_name_lt_trans(nm, rm[i as int].0, rm[b - 1].0);
                }
            } else {
                assert(name_lt(rm[a - 1].0, rm[b - 1].0));
            }
        }
        assert forall|j: int| 0 <= j < rn.len() implies m2.contains_key(#[trigger] rn[j].0) && m2[rn[j].0]
            == rn[j].1 by {
            if j < i {
                assert(rn[j] == rm[j]);
            } else if j > i {
                assert(rn[j] == rm[j - 1]);
            }
        }
        assert forall|k: Seq<char>| #[trigger] m2.contains_key(k) implies exists|j: int|
            0 <= j < rn.len() && rn[j].0 == k by {
            if k == nm {
                assert(rn[i as int].0 == k);
            } else {
                let j = choose|j: int| 0 <= j < rm.len() && rm[j].0 == k;
                if j < i {
                    assert(rn[j].0 == k);
                } else {
                    assert(rn[j + 1].0 == k);
                }
            }
        }
    }
}

/// The achievement levels a snapshot yields for a table of (name, level)
/// pairs indexed by achievement id: each completed achievement at the
/// table's level, then each active one at its own level, a later entry
/// for a name overriding an earlier one; listed by name, in the order of
/// the names' UTF-8 bytes.  Its length is the number of achievements
/// exported.
pub fn achievement_levels(ev: &EventFullAchievementInfo, table: &Vec<(String, u8)>) -> (r: Vec<(String, u8)>)
    ensures
        lists_in_order(
            levels_model(r@),
            levels_after(
                snapshot_steps(*ev, table@.len() as int),
                levels_model(table@),
                snapshot_steps(*ev, table@.len() as int).len() as int,
            ),
        ),
{
    let steps = achievement_steps(ev, table.len());
    let ghost n = table@.len() as int;
    let ghost tm = levels_model(table@);
    proof { lemma_steps_in_table(*ev, n); }
    let mut r: Vec<(String, u8)> = Vec::new();
    let mut i: usize = 0;
    while i < steps.len()
        invariant
            steps@ == snapshot_steps(*ev, n),
            n == table@.len(),
            tm == levels_model(table@),
            i <= steps@.len(),
            forall|j: int|
                0 <= j < steps@.len() ==> match #[trigger] steps@[j] {
                    AchievementStep::Completed(idx) => idx < n,
                    AchievementStep::Active(idx, level) => idx < n && level != 0,
                    _ => true,
                },
            lists_in_order(levels_model(r@), levels_after(steps@, tm, i as int)),
        decreases steps@.len() - i,
    {
        let ghost m = levels_after(steps@, tm, i as int);
        match steps[i] {
            AchievementStep::Completed(idx) => {
                insert_level(&mut r, table[idx].0.clone(), table[idx].1, Ghost(m));
            },
            AchievementStep::Active(idx, level) => {
                insert_level(&mut r, table[idx].0.clone(), level, Ghost(m));
            },
            _ => {},
        }
        i = i + 1;
    }
    r
}

/// Whether names come in name order, each once.
pub open spec fn names_in_order(levels: Seq<(Seq<char>, u8)>) -> bool {
    forall|i: int, j: int| 0 <= i < j < levels.len() ==> name_lt(#[trigger] levels[i].0, #[trigger] levels[j].0)
}

#[verifier::external_type_specification]
#[verifier::external_body]
pub struct ExJsonError(serde_json::Error);

/// The text `serde_json::to_string_pretty` makes of a JSON object whose
/// members are these names and levels, in this order.
pub uninterp spec fn pretty_json(levels: Seq<(Seq<char>, u8)>) -> Seq<char>;

/// Calls `serde_json::to_string_pretty` on the levels as a map from name
/// to level (names in order and each once, so the map holds them as they
/// are).  Claimed: a text it gives is `pretty_json` of the levels.
#[verifier::external_body]
fn to_pretty_json(levels: &Vec<(String, u8)>) -> (r: Result<String, serde_json::Error>)
    requires
        names_in_order(levels_model(levels@)),
    ensures
        r matches Ok(s) ==> s@ == pretty_json(levels_model(levels@)),
{
    let map: std::collections::BTreeMap<&str, u8> = levels.iter().map(|e| (e.0.as_str(), e.1)).collect();
    serde_json::to_string_pretty(&map)
}

/// Why an export failed.
#[derive(Debug)]
pub enum ExportError {
    /// The JSON text could not be made.
    Json(serde_json::Error),
}

/// The export text of achievement levels: a pretty-printed JSON object of
/// names to levels.
pub fn levels_json(levels: &Vec<(String, u8)>) -> (r: Result<String, ExportError>)
    requires
        names_in_order(levels_model(levels@)),
    ensures
        r matches Ok(s) ==> s@ == pretty_json(levels_model(levels@)),
{
    match to_pretty_json(levels) {
        Ok(s) => Ok(s),
        Err(e) => Err(ExportError::Json(e)),
    }
}

proof fn lemma_name_lt_cons(x: char, a: Seq<char>, b: Seq<char>, i: int)
    requires
        0 <= i,
    ensures
        name_lt_from(seq![x] + a, seq![x] + b, i + 1) == name_lt_from(a, b, i),
    decreases a.len() - i,
{
    let xa = seq![x] + a;
    let xb = seq![x] + b;
    if i < b.len() && i < a.len() {
        assert(xa[i + 1] == a[i] && xb[i + 1] == b[i]);
        if a[i] == b[i] {
            lemma_name_lt_cons(x, a, b, i + 1);
        }
    }
}

/// Names are ordered character by character: the empty name comes before
/// any other, names starting with different characters are ordered by those
/// characters' code points, and names starting with the same character are
/// ordered by the rest.
pub proof fn lemma_name_order_is_lexicographic(x: char, y: char, a: Seq<char>, b: Seq<char>)
    ensures
        name_lt(Seq::empty(), seq![x] + a),
        !name_lt(a, Seq::empty()),
        x != y ==> name_lt(seq![x] + a, seq![y] + b) == ((x as int) < (y as int)),
        name_lt(seq![x] + a, seq![x] + b) == name_lt(a, b),
{
    let xa = seq![x] + a;
    let xb = seq![x] + b;
    assert(xa[0] == x && xb[0] == x);
    assert((seq![y] + b)[0] == y);
    lemma_name_lt_cons(x, a, b, 0);
}

/// Every active id outside the table is reported, and every active id in
/// the table whose level (0 when the levels run out) is not 0 sets that
/// level; no step names an active id the snapshot does not hold.
pub proof fn lemma_active_steps_cover_ids(ids: Seq<i16>, levels: Seq<u8>, n: int, k: nat)
    requires
        k <= ids.len(),
    ensures
        forall|j: int|
            0 <= j < k && !(0 <= ids[j] < n) ==> active_steps(ids, levels, n, k).contains(
                AchievementStep::ActiveOutOfRange(#[trigger] ids[j]),
            ),
        forall|j: int|
            0 <= j < k && 0 <= ids[j] < n && j < levels.len() && levels[j] != 0 ==> active_steps(
                ids,
                levels,
                n,
                k,
            ).contains(AchievementStep::Active(#[trigger] ids[j] as usize, levels[j])),
        forall|t: int|
            0 <= t < active_steps(ids, levels, n, k).len() ==> match #[trigger] active_steps(ids, levels, n, k)[t] {
                AchievementStep::Active(idx, level) => exists|j: int|
                    0 <= j < k && ids[j] == idx && j < levels.len() && levels[j] == level && level != 0,
                AchievementStep::ActiveOutOfRange(id) => exists|j: int| 0 <= j < k && ids[j] == id && !(0 <= id < n),
                _ => false,
            },
    decreases k,
{
    if k > 0 {
        lemma_active_steps_cover_ids(ids, levels, n, (k - 1) as nat);
        let before = active_steps(ids, levels, n, (k - 1) as nat);
        let now = active_steps(ids, levels, n, k);
        let i = k - 1;
        assert forall|j: int| 0 <= j < k && !(0 <= ids[j] < n) implies now.contains(
            AchievementStep::ActiveOutOfRange(#[trigger] ids[j]),
        ) by {
            if j < i {
                let t = choose|t: int| 0 <= t < before.len() && before[t] == AchievementStep::ActiveOutOfRange(ids[j]);
                assert(now[t] == before[t]);
            } else {
                assert(now[now.len() - 1] == AchievementStep::ActiveOutOfRange(ids[j]));
            }
        }
        assert forall|j: int|
            0 <= j < k && 0 <= ids[j] < n && j < levels.len() && levels[j] != 0 implies now.contains(
            AchievementStep::Active(#[trigger] ids[j] as usize, levels[j]),
        ) by {
            if j < i {
                let t = choose|t: int|
                    0 <= t < before.len() && before[t] == AchievementStep::Active(ids[j] as usize, levels[j]);
                assert(now[t] == before[t]);
            } else {
                assert(now[now.len() - 1] == AchievementStep::Active(ids[j] as usize, levels[j]));
            }
        }
        assert forall|t: int| 0 <= t < now.len() implies match #[trigger] now[t] {
            AchievementStep::Active(idx, level) => exists|j: int|
                0 <= j < k && ids[j] == idx && j < levels.len() && levels[j] == level && level != 0,
            AchievementStep::ActiveOutOfRange(id) => exists|j: int| 0 <= j < k && ids[j] == id && !(0 <= id < n),
            _ => false,
        } by {
            if t < before.len() {
                assert(now[t] == before[t]);
                assert(before[t] == before[t]);
            } else {
                match now[t] {
                    AchievementStep::Active(idx, level) => {
                        assert(ids[i] as usize == idx);
                        assert(0 <= ids[i] < n);
                        assert(ids[i] == idx);
                    },
                    _ => {},
                }
            }
        }
    }
}

/// The completed ids come first, one step each in their order: an id in
/// the table sets the table's level, one outside it is reported; the steps
/// of the active ids follow.
pub proof fn lemma_completed_steps_come_first(ev: EventFullAchievementInfo, n: int)
    ensures
        forall|j: int|
            0 <= j < ev.completed_achievement_ids@.len() ==> #[trigger] snapshot_steps(ev, n)[j] == (if 0
                <= ev.completed_achievement_ids@[j] < n {
                AchievementStep::Completed(ev.completed_achievement_ids@[j] as usize)
            } else {
                AchievementStep::CompletedOutOfRange(ev.completed_achievement_ids@[j])
            }),
        snapshot_steps(ev, n).subrange(
            ev.completed_achievement_ids@.len() as int,
            snapshot_steps(ev, n).len() as int,
        ) == active_steps(
            ev.active_achievement_ids@,
            ev.active_achievement_levels@,
            n,
            ev.active_achievement_ids@.len(),
        ),
{
    let c = completed_steps(ev.completed_achievement_ids@, n);
    let a = active_steps(
        ev.active_achievement_ids@,
        ev.active_achievement_levels@,
        n,
        ev.active_achievement_ids@.len(),
    );
    assert((c + a).subrange(c.len() as int, (c + a).len() as int) =~= a);
}

/// The name a step is about: a completed or active achievement's table
/// name; none for a reported id.
pub open spec fn step_name(step: AchievementStep, table: Seq<(Seq<char>, u8)>) -> Option<Seq<char>> {
    match step {
        AchievementStep::Completed(i) => Some(table[i as int].0),
        AchievementStep::Active(i, _) => Some(table[i as int].0),
        _ => None,
    }
}

/// A name has a level exactly when some step is about it, and its level is
/// the one the last such step gives: the table's level for a completed
/// achievement, its own for an active one.
pub proof fn lemma_levels_last_step_wins(steps: Seq<AchievementStep>, table: Seq<(Seq<char>, u8)>, n: int, x: Seq<char>)
    requires
        0 <= n <= steps.len(),
    ensures
        levels_after(steps, table, n).contains_key(x) <==> exists|j: int|
            0 <= j < n && #[trigger] step_name(steps[j], table) == Some(x),
        forall|j: int|
            0 <= j < n && #[trigger] step_name(steps[j], table) == Some(x) && (forall|t: int|
                j < t < n ==> step_name(steps[t], table) != Some(x)) ==> levels_after(steps, table, n)[x] == match steps[j] {
                AchievementStep::Completed(i) => table[i as int].1,
                AchievementStep::Active(_, level) => level,
                _ => 0u8,
            },
    decreases n,
{
    if n > 0 {
        lemma_levels_last_step_wins(steps, table, n - 1, x);
        let m = levels_after(steps, table, n - 1);
        if levels_after(steps, table, n).contains_key(x) && !m.contains_key(x) {
            assert(step_name(steps[n - 1], table) == Some(x));
        }
        if m.contains_key(x) {
            let j = choose|j: int| 0 <= j < n - 1 && #[trigger] step_name(steps[j], table) == Some(x);
            assert(step_name(steps[j], table) == Some(x));
        }
        assert forall|j: int|
            0 <= j < n && #[trigger] step_name(steps[j], table) == Some(x) && (forall|t: int|
                j < t < n ==> step_name(steps[t], table) != Some(x)) implies levels_after(steps, table, n)[x] == match steps[j] {
                AchievementStep::Completed(i) => table[i as int].1,
                AchievementStep::Active(_, level) => level,
                _ => 0u8,
            } by {
            if j < n - 1 {
                assert(step_name(steps[n - 1], table) != Some(x));
                assert forall|t: int| j < t < n - 1 implies step_name(steps[t], table) != Some(x) by {}
            }
        }
    }
}

} // verus!
