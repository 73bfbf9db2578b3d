//! What the client is told about the character bag: each character with
//! its skill levels and normal attack, and each team with its members'
//! normal attacks. Skills come from the character skill table, given per
//! character template as bundles of (skill id, level) entries.
use std::collections::HashMap;

use vstd::prelude::*;
use vstd::string::StrSliceExecFns;

use crate::character::{member_ids, CharBag, SkillLevelState, TeamSlot, TeamSyncState};
use crate::error::LogicError;
use crate::strmap::StrMap;

verus! {

broadcast use vstd::std_specs::hash::group_hash_axioms;

/// One skill of a character's skill table: its entries (skill id, level),
/// in table order.
#[derive(Debug)]
pub struct SkillBundle {
    pub entries: Vec<(String, u32)>,
}

/// Whether `p` occurs in `s`.
pub open spec fn has_sub(s: Seq<char>, p: Seq<char>) -> bool {
    exists|i: int| 0 <= i && i + p.len() <= s.len() && #[trigger] s.subrange(i, i + p.len()) == p
}

/// Whether `p` occurs in `s`.
fn contains_str(s: &str, p: &str) -> (r: bool)
    ensures
        r == has_sub(s@, p@),
{
    let n = s.unicode_len();
    let m = p.unicode_len();
    if m == 0 {
        proof {
            assert(s@.subrange(0int, 0int + p@.len()) =~= p@);
        }
        return true;
    }
    if m > n {
        proof {
            assert forall|i: int| 0 <= i && i + p@.len() <= s@.len() implies #[trigger] s@.subrange(i, i + p@.len()) != p@ by {}
        }
        return false;
    }
    let last = n - m;
    let mut i: usize = 0;
    while i < last + 1
        invariant
            n == s@.len(),
            m == p@.len(),
            1 <= m <= n,
            last == n - m,
            0 <= i <= last + 1,
            forall|a: int| 0 <= a < i ==> #[trigger] s@.subrange(a, a + m) != p@,
        decreases n - m + 1 - i,
    {
        let mut j: usize = 0;
        let mut same = true;
        while j < m
            invariant
                n == s@.len(),
                m == p@.len(),
                i + m <= n,
                0 <= j <= m,
                same ==> forall|q: int| 0 <= q < j ==> s@[i + q] == p@[q],
                !same ==> s@.subrange(i as int, i + m) != p@,
            decreases m - j,
        {
            if same && s.get_char(i + j) != p.get_char(j) {
                proof {
                    assert(s@.subrange(i as int, i + m)[j as int] == s@[i + j]);
                }
                same = false;
            }
            j += 1;
        }
        if same {
            proof {
                assert(s@.subrange(i as int, i + m) =~= p@);
            }
            return true;
        }
        i += 1;
    }
    proof {
        assert forall|a: int| 0 <= a && a + p@.len() <= s@.len() implies #[trigger] s@.subrange(a, a + p@.len()) != p@ by {
            assert(a < i);
        }
    }
    false
}

/// Whether a bundle's first skill is a normal attack.
pub open spec fn is_normal_bundle(b: SkillBundle) -> bool {
    b.entries@.len() > 0 && has_sub(b.entries@[0].0@, "normal_skill"@)
}

/// The first skill of the first of the first `n` bundles that is a normal
/// attack.
pub open spec fn first_normal(bs: Seq<SkillBundle>, n: int) -> Option<Seq<char>>
    decreases n,
{
    if n <= 0 {
        None
    } else {
        match first_normal(bs, n - 1) {
            Some(x) => Some(x),
            None => if is_normal_bundle(bs[n - 1]) {
                Some(bs[n - 1].entries@[0].0@)
            } else {
                None
            },
        }
    }
}

/// The normal attack of character template `t`: the first skill of its
/// first bundle whose first skill id holds "normal_skill"; empty when
/// there is none or the template has no skills.
pub open spec fn normal_skill(table: Map<Seq<char>, Vec<SkillBundle>>, t: Seq<char>) -> Seq<char> {
    if table.contains_key(t) {
        match first_normal(table[t]@, table[t]@.len() as int) {
            Some(x) => x,
            None => Seq::empty(),
        }
    } else {
        Seq::empty()
    }
}

/// The normal attack of character template `template_id` (see
/// `normal_skill`).
pub fn get_normal_skill(template_id: &str, table: &StrMap<Vec<SkillBundle>>) -> (r: String)
    ensures
        r@ == normal_skill(table@, template_id@),
{
    match table.get(template_id) {
        Some(bs) => {
            let mut i: usize = 0;
            while i < bs.len()
                invariant
                    0 <= i <= bs@.len(),
                    table@.contains_key(template_id@),
                    *bs == table@[template_id@],
                    first_normal(bs@, i as int) is None,
                decreases bs@.len() - i,
            {
                let b = &bs[i];
                if b.entries.len() > 0 && contains_str(b.entries[0].0.as_str(), "normal_skill") {
                    let r = b.entries[0].0.clone();
                    proof {
                        assert(is_normal_bundle(bs@[i as int]));
                        assert(first_normal(bs@, i as int + 1) == Some(bs@[i as int].entries@[0].0@));
                        lemma_first_normal_stays(bs@, i as int + 1, bs@.len() as int);
                        assert(bs@ == table@[template_id@]@);
                    }
                    return r;
                }
                i += 1;
            }
            String::new()
        },
        None => String::new(),
    }
}

proof fn lemma_first_normal_stays(bs: Seq<SkillBundle>, n: int, m: int)
    requires
        0 <= n <= m,
        first_normal(bs, n) is Some,
    ensures
        first_normal(bs, m) == first_normal(bs, n),
    decreases m - n,
{
    if m > n {
        lemma_first_normal_stays(bs, n, m - 1);
    }
}

/// Index of the first of the first `n` entries at level `lv`.
pub open spec fn first_at_level(es: Seq<(String, u32)>, lv: u32, n: int) -> Option<int>
    decreases n,
{
    if n <= 0 {
        None
    } else {
        match first_at_level(es, lv, n - 1) {
            Some(x) => Some(x),
            None => if es[n - 1].1 == lv { Some(n - 1) } else { None },
        }
    }
}

/// The highest level among the first `n` entries (1 when there are none).
pub open spec fn max_level(es: Seq<(String, u32)>, n: int) -> u32
    decreases n,
{
    if n <= 0 {
        1
    } else if n == 1 {
        es[0].1
    } else {
        let m = max_level(es, n - 1);
        if es[n - 1].1 > m { es[n - 1].1 } else { m }
    }
}

/// A character's level of one bundle: the entry at the level the
/// character has of the bundle's first skill (1 when it has none recorded),
/// with the bundle's highest level; none when the bundle is empty or has no
/// entry at that level.
pub open spec fn bundle_state(b: SkillBundle, levels: Map<Seq<char>, u32>) -> Option<(Seq<char>, i32, i32)> {
    let es = b.entries@;
    if es.len() == 0 {
        None
    } else {
        let first = es[0].0@;
        let cur: u32 = if levels.contains_key(first) { levels[first] } else { 1 };
        match first_at_level(es, cur, es.len() as int) {
            Some(k) => Some((es[k].0@, es[k].1 as i32, max_level(es, es.len() as int) as i32)),
            None => None,
        }
    }
}

/// The states of the first `n` bundles that have one, in order.
pub open spec fn bundle_states(bs: Seq<SkillBundle>, levels: Map<Seq<char>, u32>, n: int) -> Seq<(Seq<char>, i32, i32)>
    decreases n,
{
    if n <= 0 {
        Seq::empty()
    } else {
        bundle_states(bs, levels, n - 1) + match bundle_state(bs[n - 1], levels) {
            Some(x) => seq![x],
            None => Seq::empty(),
        }
    }
}

/// Skill level states as plain values.
pub open spec fn level_states_view(v: Seq<SkillLevelState>) -> Seq<(Seq<char>, i32, i32)> {
    v.map_values(|s: SkillLevelState| (s.skill_id@, s.skill_level, s.skill_max_level))
}

/// The state of one bundle for a character (see `bundle_state`).
fn compute_bundle_state(b: &SkillBundle, levels: &StrMap<u32>) -> (r: Option<SkillLevelState>)
    ensures
        match bundle_state(*b, levels@) {
            Some(x) => r matches Some(s) && (s.skill_id@, s.skill_level, s.skill_max_level) == x,
            None => r is None,
        },
{
    let es = &b.entries;
    if es.len() == 0 {
        return None;
    }
    let cur: u32 = match levels.get(es[0].0.as_str()) {
        Some(v) => *v,
        None => 1,
    };
    let mut found: Option<usize> = None;
    let mut max: u32 = es[0].1;
    let mut k: usize = 0;
    while k < es.len()
        invariant
            0 <= k <= es@.len(),
            es@.len() > 0,
            match first_at_level(es@, cur, k as int) {
                Some(x) => found == Some(x as usize),
                None => found is None,
            },
            max == if k == 0 { es@[0].1 } else { max_level(es@, k as int) },
        decreases es@.len() - k,
    {
        if found.is_none() && es[k].1 == cur {
            found = Some(k);
        }
        if k > 0 && es[k].1 > max {
            max = es[k].1;
        }
        proof {
            lemma_first_at_level_bound(es@, cur, k as int);
        }
        k += 1;
    }
    match found {
        Some(x) => {
            proof {
                lemma_first_at_level_bound(es@, cur, es@.len() as int);
            }
            Some(
                SkillLevelState {
                    skill_id: es[x].0.clone(),
                    skill_level: es[x].1 as i32,
                    skill_max_level: max as i32,
                },
            )
        },
        None => None,
    }
}

proof fn lemma_first_at_level_bound(es: Seq<(String, u32)>, lv: u32, n: int)
    ensures
        first_at_level(es, lv, n) matches Some(x) ==> 0 <= x < n,
    decreases n,
{
    if n > 0 {
        lemma_first_at_level_bound(es, lv, n - 1);
    }
}

/// A character as the client is told about it; hit points and ultimate
/// energy are the bit patterns of their floating-point values.
#[derive(Debug)]
pub struct CharSyncState {
    pub objid: u64,
    pub template_id: String,
    pub level: i32,
    pub exp: i32,
    pub break_stage: u32,
    pub hp_bits: u64,
    pub ultimate_sp_bits: u32,
    pub weapon_id: u64,
    pub own_time: i64,
    pub is_dead: bool,
    pub normal_skill: String,
    pub skill_levels: Vec<SkillLevelState>,
}

/// `"Unknown character template: "` followed by `template_id`.
fn unknown_template_message(template_id: &str) -> (r: String)
    ensures
        r@ == "Unknown character template: "@ + template_id@,
{
    let mut s = String::from_str("Unknown character template: ");
    s.append(template_id);
    s
}

/// Index of the first of the first `n` characters whose template the table
/// does not know.
pub open spec fn first_unknown(chars: Seq<crate::character::Char>, table: Map<Seq<char>, Vec<SkillBundle>>, n: int) -> Option<int>
    decreases n,
{
    if n <= 0 {
        None
    } else {
        match first_unknown(chars, table, n - 1) {
            Some(x) => Some(x),
            None => if !table.contains_key(chars[n - 1].template_id@) { Some(n - 1) } else { None },
        }
    }
}

/// The state the client is told about character `c` at index `i`.
pub open spec fn char_state_ok(s: CharSyncState, c: crate::character::Char, i: int, table: Map<Seq<char>, Vec<SkillBundle>>) -> bool {
    &&& s.objid == i + 1
    &&& s.template_id@ == c.template_id@
    &&& s.level == c.level
    &&& s.exp == c.exp
    &&& s.break_stage == c.break_stage
    &&& s.hp_bits == c.hp_bits
    &&& s.ultimate_sp_bits == c.ultimate_sp_bits
    &&& s.weapon_id == c.weapon_id.0
    &&& s.own_time == c.own_time
    &&& s.is_dead == c.is_dead
    &&& s.normal_skill@ == normal_skill(table, c.template_id@)
    &&& level_states_view(s.skill_levels@) == bundle_states(table[c.template_id@]@, c.skill_levels@, table[c.template_id@]@.len() as int)
}

impl CharBag {
    /// The state of one character (see `char_state_ok`); its template must
    /// be in the table.
    fn char_sync_state(&self, i: usize, table: &StrMap<Vec<SkillBundle>>, bundles: &Vec<SkillBundle>) -> (r: CharSyncState)
        requires
            i < self.chars@.len(),
            i < u64::MAX,
            table@.contains_key(self.chars@[i as int].template_id@),
            *bundles == table@[self.chars@[i as int].template_id@],
        ensures
            char_state_ok(r, self.chars@[i as int], i as int, table@),
    {
        let c = &self.chars[i];
        let mut levels: Vec<SkillLevelState> = Vec::new();
        let mut k: usize = 0;
        while k < bundles.len()
            invariant
                0 <= k <= bundles@.len(),
                level_states_view(levels@) == bundle_states(bundles@, c.skill_levels@, k as int),
            decreases bundles@.len() - k,
        {
            let ghost before = levels@;
            match compute_bundle_state(&bundles[k], &c.skill_levels) {
                Some(st) => {
                    levels.push(st);
                    proof {
                        assert(level_states_view(levels@) =~= level_states_view(before).push(
                            (levels@.last().skill_id@, levels@.last().skill_level, levels@.last().skill_max_level),
                        ));
                    }
                },
                None => {},
            }
            proof {
                assert(bundle_states(bundles@, c.skill_levels@, k as int + 1) =~= bundle_states(bundles@, c.skill_levels@, k as int)
                    + match bundle_state(bundles@[k as int], c.skill_levels@) {
                    Some(x) => seq![x],
                    None => Seq::empty(),
                });
            }
            k += 1;
        }
        CharSyncState {
            objid: (i as u64) + 1,
            template_id: c.template_id.clone(),
            level: c.level,
            exp: c.exp,
            break_stage: c.break_stage,
            hp_bits: c.hp_bits,
            ultimate_sp_bits: c.ultimate_sp_bits,
            weapon_id: c.weapon_id.inst_id(),
            own_time: c.own_time,
            is_dead: c.is_dead,
            normal_skill: get_normal_skill(c.template_id.as_str(), table),
            skill_levels: levels,
        }
    }

    /// The state of every character, in bag order; refused, naming the
    /// template, when a character's template is not in the table.
    pub fn char_sync_states(&self, table: &StrMap<Vec<SkillBundle>>) -> (r: Result<Vec<CharSyncState>, LogicError>)
        requires
            self.chars@.len() < u64::MAX,
        ensures
            match first_unknown(self.chars@, table@, self.chars@.len() as int) {
                Some(k) => r matches Err(LogicError::NotFound(m)) && m@ == "Unknown character template: "@
                    + self.chars@[k].template_id@,
                None => r matches Ok(v) && v@.len() == self.chars@.len() && forall|i: int|
                    0 <= i < v@.len() ==> char_state_ok(#[trigger] v@[i], self.chars@[i], i, table@),
            },
    {
        let mut out: Vec<CharSyncState> = Vec::new();
        let mut i: usize = 0;
        while i < self.chars.len()
            invariant
                0 <= i <= self.chars@.len(),
                self.chars@.len() < u64::MAX,
                first_unknown(self.chars@, table@, i as int) is None,
                out@.len() == i,
                forall|j: int| 0 <= j < i ==> char_state_ok(#[trigger] out@[j], self.chars@[j], j, table@),
            decreases self.chars@.len() - i,
        {
            match table.get(self.chars[i].template_id.as_str()) {
                Some(bundles) => {
                    let st = self.char_sync_state(i, table, bundles);
                    out.push(st);
                },
                None => {
                    proof {
                        lemma_first_unknown_stays(self.chars@, table@, i as int + 1, self.chars@.len() as int);
                    }
                    return Err(LogicError::NotFound(unknown_template_message(self.chars[i].template_id.as_str())));
                },
            }
            i += 1;
        }
        Ok(out)
    }

    /// Each team as the client is told about it: its name, its members'
    /// object ids in slot order, its leader's object id, and each member's
    /// normal attack.
    pub fn team_sync_states(&self, table: &StrMap<Vec<SkillBundle>>) -> (r: Vec<TeamSyncState>)
        requires
            forall|t: int, k: int|
                0 <= t < self.teams@.len() && 0 <= k < 4 ==> (#[trigger] self.teams@[t].char_team@[k] matches TeamSlot::Occupied(idx)
                    ==> idx.0 < self.chars@.len()),
            forall|t: int| 0 <= t < self.teams@.len() ==> (#[trigger] self.teams@[t]).leader_index.0 < u64::MAX,
            self.chars@.len() < u64::MAX,
        ensures
            r@.len() == self.teams@.len(),
            forall|t: int|
                0 <= t < r@.len() ==> {
                    let team = self.teams@[t];
                    let s = #[trigger] r@[t];
                    &&& s.name@ == team.name@
                    &&& s.char_ids@ == member_ids(team.char_team@)
                    &&& s.leader_id == team.leader_index.0 + 1
                    &&& forall|id: u64| #[trigger] s.member_skills@.contains_key(id) <==> member_ids(team.char_team@).contains(id)
                    &&& forall|id: u64| #[trigger] s.member_skills@.contains_key(id) ==> s.member_skills@[id]@ == normal_skill(
                        table@,
                        self.chars@[id - 1].template_id@,
                    )
                },
    {
        let mut out: Vec<TeamSyncState> = Vec::new();
        let mut t: usize = 0;
        while t < self.teams.len()
            invariant
                0 <= t <= self.teams@.len(),
                out@.len() == t,
                self.chars@.len() < u64::MAX,
                forall|tt: int, k: int|
                    0 <= tt < self.teams@.len() && 0 <= k < 4 ==> (#[trigger] self.teams@[tt].char_team@[k] matches TeamSlot::Occupied(
                        idx,
                    ) ==> idx.0 < self.chars@.len()),
                forall|tt: int| 0 <= tt < self.teams@.len() ==> (#[trigger] self.teams@[tt]).leader_index.0 < u64::MAX,
                forall|tt: int|
                    0 <= tt < t ==> {
                        let team = self.teams@[tt];
                        let s = #[trigger] out@[tt];
                        &&& s.name@ == team.name@
                        &&& s.char_ids@ == member_ids(team.char_team@)
                        &&& s.leader_id == team.leader_index.0 + 1
                        &&& forall|id: u64| #[trigger] s.member_skills@.contains_key(id) <==> member_ids(team.char_team@).contains(id)
                        &&& forall|id: u64| #[trigger] s.member_skills@.contains_key(id) ==> s.member_skills@[id]@ == normal_skill(
                            table@,
                            self.chars@[id - 1].template_id@,
                        )
                    },
            decreases self.teams@.len() - t,
        {
            let team = &self.teams[t];
            let ghost slots = team.char_team@;
            let nchars = self.chars.len();
            let mut ids: Vec<u64> = Vec::new();
            let mut skills: HashMap<u64, String> = HashMap::new();
            let mut k: usize = 0;
            while k < 4
                invariant
                    0 <= k <= 4,
                    slots == team.char_team@,
                    slots.len() == 4,
                    nchars == self.chars@.len(),
                    self.chars@.len() < u64::MAX,
                    forall|j: int| 0 <= j < 4 ==> (#[trigger] slots[j] matches TeamSlot::Occupied(idx) ==> idx.0 < self.chars@.len()),
                    ids@ == member_ids(slots.take(k as int)),
                    forall|id: u64| #[trigger] skills@.contains_key(id) <==> ids@.contains(id),
                    forall|id: u64| #[trigger] skills@.contains_key(id) ==> 1 <= id <= self.chars@.len() && skills@[id]@ == normal_skill(
                        table@,
                        self.chars@[id - 1].template_id@,
                    ),
                decreases 4 - k,
            {
                proof {
                    assert(slots.take(k as int + 1).drop_last() == slots.take(k as int));
                    assert(slots.take(k as int + 1).last() == slots[k as int]);
                }
                match team.char_team[k].char_index() {
                    Some(idx) => {
                        let id = idx.object_id();
                        let ci = idx.0 as usize;
                        proof {
                            assert(ci as int == idx.0 as int);
                            assert(id - 1 == ci as int);
                        }
                        let skill = get_normal_skill(self.chars[ci].template_id.as_str(), table);
                        let ghost before = ids@;
                        let ghost old_sk = skills@;
                        ids.push(id);
                        skills.insert(id, skill);
                        proof {
                            assert(ids@ == member_ids(slots.take(k as int + 1)));
                            assert forall|x: u64| #[trigger] skills@.contains_key(x) implies 1 <= x <= self.chars@.len() && skills@[x]@
                                == normal_skill(table@, self.chars@[x - 1].template_id@) by {
                                if x == id {
                                    assert(skills@[x] == skill);
                                } else {
                                    assert(old_sk.contains_key(x));
                                    assert(skills@[x] == old_sk[x]);
                                }
                            }
                            assert forall|x: u64| #[trigger] skills@.contains_key(x) <==> ids@.contains(x) by {
                                if ids@.contains(x) && x != id {
                                    let y = choose|y: int| 0 <= y < ids@.len() && ids@[y] == x;
                                    assert(y < before.len());
                                    assert(before[y] == x);
                                    assert(before.contains(x));
                                }
                                if before.contains(x) {
                                    let y = choose|y: int| 0 <= y < before.len() && before[y] == x;
                                    assert(ids@[y] == x);
                                }
                                if x == id {
                                    assert(ids@[ids@.len() - 1] == x);
                                }
                            }
                        }
                    },
                    None => {
                        proof {
                            assert(member_ids(slots.take(k as int + 1)) == member_ids(slots.take(k as int)));
                        }
                    },
                }
                k += 1;
            }
            proof {
                assert(slots.take(4) == slots);
            }
            let ghost prev = out@;
            out.push(
                TeamSyncState {
                    name: team.name.clone(),
                    char_ids: ids,
                    leader_id: team.leader_index.object_id(),
                    member_skills: skills,
                },
            );
            proof {
                assert forall|tt: int| 0 <= tt < t + 1 implies {
                    let team = self.teams@[tt];
                    let s = #[trigger] out@[tt];
                    &&& s.name@ == team.name@
                    &&& s.char_ids@ == member_ids(team.char_team@)
                    &&& s.leader_id == team.leader_index.0 + 1
                    &&& forall|id: u64| #[trigger] s.member_skills@.contains_key(id) <==> member_ids(team.char_team@).contains(id)
                    &&& forall|id: u64| #[trigger] s.member_skills@.contains_key(id) ==> s.member_skills@[id]@ == normal_skill(
                        table@,
                        self.chars@[id - 1].template_id@,
                    )
                } by {
                    if tt < t {
                        assert(out@[tt] == prev[tt]);
                    }
                }
            }
            t += 1;
        }
        out
    }
}

proof fn lemma_first_unknown_stays(
    chars: Seq<crate::character::Char>,
    table: Map<Seq<char>, Vec<SkillBundle>>,
    n: int,
    m: int,
)
    requires
        0 <= n <= m,
        first_unknown(chars, table, n) is Some,
    ensures
        first_unknown(chars, table, m) == first_unknown(chars, table, n),
    decreases m - n,
{
    if m > n {
        lemma_first_unknown_stays(chars, table, n, m - 1);
    }
}

} // verus!
