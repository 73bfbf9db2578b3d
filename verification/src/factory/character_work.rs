//! Characters working in factory regions: punching in assigns slots in
//! order, punching out removes them.
use vstd::prelude::*;
use vstd::string::StrSliceExecFns;

use super::manager::FactoryManager;
use super::table::FactoryTable;
use super::CharacterWorker;
use crate::strmap::StrMap;

verus! {

/// The value of a string of decimal digits.
pub open spec fn digits_value(s: Seq<char>) -> int
    decreases s.len(),
{
    if s.len() == 0 {
        0
    } else {
        digits_value(s.drop_last()) * 10 + (s.last() as int - '0' as int)
    }
}

/// Every character is a decimal digit.
pub open spec fn all_digits(s: Seq<char>) -> bool {
    forall|i: int| 0 <= i < s.len() ==> '0' <= #[trigger] s[i] <= '9'
}

/// A character id read as a 32-bit number, the way `u32::from_str`
/// reads it (an optional `+`, then at least one digit, within range), or
/// 0 when it does not read.
pub open spec fn char_id_value(s: Seq<char>) -> u32 {
    let d = digits_part(s);
    if d.len() > 0 && all_digits(d) && digits_value(d) <= u32::MAX {
        digits_value(d) as u32
    } else {
        0
    }
}

/// The part of `s` after an optional leading `+`.
pub open spec fn digits_part(s: Seq<char>) -> Seq<char> {
    if s.len() > 0 && s[0] == '+' { s.drop_first() } else { s }
}

proof fn lemma_digits_prefix(s: Seq<char>, j: int)
    requires
        all_digits(s),
        0 <= j <= s.len(),
    ensures
        0 <= digits_value(s.subrange(0, j)) <= digits_value(s),
    decreases s.len() - j,
{
    if j < s.len() {
        lemma_digits_prefix(s, j + 1);
        assert(s.subrange(0, j + 1).drop_last() =~= s.subrange(0, j));
        assert('0' <= s[j] <= '9');
    } else {
        assert(s.subrange(0, j) =~= s);
        lemma_digits_nonneg(s);
    }
}

proof fn lemma_digits_nonneg(s: Seq<char>)
    requires
        all_digits(s),
    ensures
        digits_value(s) >= 0,
    decreases s.len(),
{
    if s.len() > 0 {
        assert(all_digits(s.drop_last()));
        lemma_digits_nonneg(s.drop_last());
        assert('0' <= s[s.len() - 1] <= '9');
    }
}

/// Reads a character id (see `char_id_value`).
pub fn parse_char_id(s: &str) -> (r: u32)
    ensures
        r == char_id_value(s@),
{
    let n = s.unicode_len();
    let ghost v = s@;
    let start: usize = if n > 0 && s.get_char(0) == '+' { 1 } else { 0 };
    let ghost d = digits_part(v);
    proof {
        assert(d =~= v.subrange(start as int, v.len() as int));
    }
    if start >= n {
        return 0;
    }
    let mut value: u32 = 0;
    let mut overflow = false;
    let mut i: usize = start;
    proof {
        assert(d.subrange(0, 0) =~= Seq::<char>::empty());
    }
    while i < n
        invariant
            start <= i <= n,
            n == v.len(),
            v == s@,
            d == v.subrange(start as int, n as int),
            d == digits_part(v),
            all_digits(d.subrange(0, i - start)),
            !overflow ==> value == digits_value(d.subrange(0, i - start)),
            overflow ==> digits_value(d.subrange(0, i - start)) > u32::MAX,
        decreases n - i,
    {
        let c = s.get_char(i);
        let ghost pre = d.subrange(0, i - start);
        let ghost pre2 = d.subrange(0, i + 1 - start);
        proof {
            assert(pre2.drop_last() =~= pre);
            assert(pre2.last() == c);
        }
        if !('0' <= c && c <= '9') {
            proof {
                assert(d[i - start] == c);
                assert(!all_digits(d));

            }
            return 0;
        }
        proof {
            assert(all_digits(pre2)) by {
                assert forall|k: int| 0 <= k < pre2.len() implies '0' <= #[trigger] pre2[k] <= '9' by {
                    if k < pre.len() {
                        assert(pre2[k] == pre[k]);
                    }
                }
            }
            lemma_digits_nonneg(pre);
        }
        let digit: u32 = (c as u32) - ('0' as u32);
        if !overflow {
            match value.checked_mul(10) {
                Some(t) => match t.checked_add(digit) {
                    Some(u) => {
                        value = u;
                    },
                    None => {
                        overflow = true;
                    },
                },
                None => {
                    overflow = true;
                },
            }
        } else {
            proof {
                assert(digits_value(pre2) >= digits_value(pre) * 10);
            }
        }
        i += 1;
    }
    proof {
        assert(d.subrange(0, n - start) =~= d);
    }
    if overflow {
        0
    } else {
        value
    }
}

/// The workers after removing those of region `name` (with a character)
/// whose character is among `ids`.
pub open spec fn kept_workers(ws: Seq<CharacterWorker>, name: Seq<char>, ids: Seq<u32>) -> Seq<CharacterWorker>
    decreases ws.len(),
{
    if ws.len() == 0 {
        Seq::empty()
    } else {
        let w = ws.last();
        kept_workers(ws.drop_last(), name, ids) + if w.region_name@ == name && w.char_inst_id != 0 && ids.contains(w.char_inst_id) {
            Seq::empty()
        } else {
            seq![w]
        }
    }
}

/// The workers without those of character `id`.
pub open spec fn without_worker(ws: Seq<CharacterWorker>, id: u32) -> Seq<CharacterWorker>
    decreases ws.len(),
{
    if ws.len() == 0 {
        Seq::empty()
    } else {
        without_worker(ws.drop_last(), id) + if ws.last().char_inst_id == id { Seq::empty() } else { seq![ws.last()] }
    }
}

/// Punching out the characters `ids` in turn from workers `ws`: the
/// workers left, and the ids of the characters that were working.
pub open spec fn punched_out(ws: Seq<CharacterWorker>, ids: Seq<Seq<char>>) -> (Seq<CharacterWorker>, Seq<Seq<char>>)
    decreases ids.len(),
{
    if ids.len() == 0 {
        (ws, Seq::empty())
    } else {
        let (ws1, p1) = punched_out(ws, ids.drop_last());
        let ws2 = without_worker(ws1, char_id_value(ids.last()));
        (ws2, if ws2.len() < ws1.len() { p1.push(ids.last()) } else { p1 })
    }
}

/// The strings, by view.
pub open spec fn str_seq(s: Seq<String>) -> Seq<Seq<char>> {
    s.map_values(|x: String| x@)
}

/// The character ids read as numbers.
pub open spec fn id_values(ids: Seq<String>) -> Seq<u32> {
    ids.map_values(|s: String| char_id_value(s@))
}

/// Whether `ids` holds `id`.
fn contains_id(ids: &Vec<u32>, id: u32) -> (r: bool)
    ensures
        r == ids@.contains(id),
{
    let mut i: usize = 0;
    while i < ids.len()
        invariant
            0 <= i <= ids@.len(),
            forall|j: int| 0 <= j < i ==> ids@[j] != id,
        decreases ids@.len() - i,
    {
        if ids[i] == id {
            return true;
        }
        i += 1;
    }
    false
}

/// Removes the workers of character `id`.
fn remove_worker(ws: &mut Vec<CharacterWorker>, id: u32)
    ensures
        final(ws)@ == without_worker(old(ws)@, id),
{
    let mut src: Vec<CharacterWorker> = Vec::new();
    std::mem::swap(&mut src, ws);
    let ghost all = src@;
    let mut kept: Vec<CharacterWorker> = Vec::new();
    proof {
        assert(all.subrange(0, 0) =~= Seq::<CharacterWorker>::empty());
        assert(src@ =~= all.subrange(0, all.len() as int));
    }
    while src.len() > 0
        invariant
            src@.len() <= all.len(),
            all == old(ws)@,
            src@ == all.subrange(all.len() - src@.len(), all.len() as int),
            kept@ == without_worker(all.subrange(0, all.len() - src@.len()), id),
        decreases src@.len(),
    {
        let ghost done = all.len() - src@.len();
        let w = src.remove(0);
        proof {
            assert(w == all[done]);
            assert(all.subrange(0, done + 1).drop_last() =~= all.subrange(0, done));
            assert(src@ =~= all.subrange(done + 1, all.len() as int));
        }
        if w.char_inst_id != id {
            kept.push(w);
        }
    }
    proof {
        assert(all.subrange(0, all.len() as int) =~= all);
    }
    *ws = kept;
}

impl FactoryManager {
    /// Punches in the characters of `char_id_sequence` in region
    /// `region_name`, slot by slot in order: their earlier slots in the
    /// region are dropped first. Always true.
    pub fn character_work_punch_in(
        &mut self,
        table: &FactoryTable,
        region_name: &str,
        node_id: u32,
        char_id_sequence: &Vec<String>,
    ) -> (r: bool)
        requires
            char_id_sequence@.len() <= u32::MAX,
        ensures
            r,
            ({
                let kept = kept_workers(old(self).character_work_state.workers@, region_name@, id_values(char_id_sequence@));
                let ws = final(self).character_work_state.workers@;
                &&& ws.len() == kept.len() + char_id_sequence@.len()
                &&& ws.subrange(0, kept.len() as int) == kept
                &&& forall|j: int|
                    0 <= j < char_id_sequence@.len() ==> {
                        let w = #[trigger] ws[kept.len() + j];
                        &&& w.region_name@ == region_name@
                        &&& w.char_inst_id == char_id_value(char_id_sequence@[j]@)
                        &&& w.skill_ids@.len() == 0
                        &&& w.work_slot == j
                    }
            }),
            final(self).regions == old(self).regions,
            final(self).stt_state == old(self).stt_state,
            final(self).trade_state == old(self).trade_state,
    {
        let ghost idv = id_values(char_id_sequence@);
        let mut ids: Vec<u32> = Vec::new();
        let mut fresh: Vec<CharacterWorker> = Vec::new();
        let mut i: usize = 0;
        while i < char_id_sequence.len()
            invariant
                0 <= i <= char_id_sequence@.len(),
                char_id_sequence@.len() <= u32::MAX,
                idv == id_values(char_id_sequence@),
                ids@ == idv.subrange(0, i as int),
                fresh@.len() == i,
                forall|j: int|
                    0 <= j < i ==> {
                        let w = #[trigger] fresh@[j];
                        &&& w.region_name@ == region_name@
                        &&& w.char_inst_id == char_id_value(char_id_sequence@[j]@)
                        &&& w.skill_ids@.len() == 0
                        &&& w.work_slot == j
                    },
            decreases char_id_sequence@.len() - i,
        {
            let id = parse_char_id(char_id_sequence[i].as_str());
            ids.push(id);
            fresh.push(CharacterWorker { region_name: region_name.to_owned(), char_inst_id: id, skill_ids: Vec::new(), work_slot: i as u32 });
            proof {
                assert(ids@ =~= idv.subrange(0, i + 1));
            }
            i += 1;
        }
        proof {
            assert(ids@ =~= idv);
        }
        let key = region_name.to_owned();
        let mut src: Vec<CharacterWorker> = Vec::new();
        std::mem::swap(&mut src, &mut self.character_work_state.workers);
        let ghost all = src@;
        let ghost m0 = *old(self);
        let mut kept: Vec<CharacterWorker> = Vec::new();
        proof {
            assert(all.subrange(0, 0) =~= Seq::<CharacterWorker>::empty());
            assert(src@ =~= all.subrange(0, all.len() as int));
        }
        while src.len() > 0
            invariant
                src@.len() <= all.len(),
                all == m0.character_work_state.workers@,
                key@ == region_name@,
                ids@ == idv,
                src@ == all.subrange(all.len() - src@.len(), all.len() as int),
                kept@ == kept_workers(all.subrange(0, all.len() - src@.len()), region_name@, idv),
                self.regions == m0.regions,
                self.stt_state == m0.stt_state,
                self.trade_state == m0.trade_state,
            decreases src@.len(),
        {
            let ghost done = all.len() - src@.len();
            let w = src.remove(0);
            proof {
                assert(w == all[done]);
                assert(all.subrange(0, done + 1).drop_last() =~= all.subrange(0, done));
                assert(src@ =~= all.subrange(done + 1, all.len() as int));
            }
            let drop = w.region_name == key && w.char_inst_id != 0 && contains_id(&ids, w.char_inst_id);
            if !drop {
                kept.push(w);
            }
        }
        proof {
            assert(all.subrange(0, all.len() as int) =~= all);
        }
        let ghost k = kept@;
        let ghost f = fresh@;
        kept.append(&mut fresh);
        proof {
            assert(kept@ =~= k + f);
            assert(kept@.subrange(0, k.len() as int) =~= k);
            assert forall|j: int| 0 <= j < f.len() implies #[trigger] kept@[k.len() + j] == f[j] by {}
        }
        self.character_work_state.workers = kept;
        true
    }

    /// Punches out the characters of `char_id_list` in turn; returns the
    /// ids of those that were working (see `punched_out`).
    pub fn character_work_punch_out(&mut self, char_id_list: &Vec<String>) -> (r: Vec<String>)
        ensures
            ({
                let res = punched_out(old(self).character_work_state.workers@, str_seq(char_id_list@));
                &&& final(self).character_work_state.workers@ == res.0
                &&& str_seq(r@) == res.1
            }),
            final(self).regions == old(self).regions,
            final(self).stt_state == old(self).stt_state,
            final(self).trade_state == old(self).trade_state,
    {
        let ghost ids = str_seq(char_id_list@);
        let mut punched: Vec<String> = Vec::new();
        let mut i: usize = 0;
        proof {
            assert(ids.subrange(0, 0) =~= Seq::<Seq<char>>::empty());
            assert(str_seq(punched@) =~= Seq::<Seq<char>>::empty());
        }
        while i < char_id_list.len()
            invariant
                0 <= i <= char_id_list@.len(),
                ids == str_seq(char_id_list@),
                self.character_work_state.workers@ == punched_out(old(self).character_work_state.workers@, ids.subrange(0, i as int)).0,
                str_seq(punched@) == punched_out(old(self).character_work_state.workers@, ids.subrange(0, i as int)).1,
                self.regions == old(self).regions,
                self.stt_state == old(self).stt_state,
                self.trade_state == old(self).trade_state,
            decreases char_id_list@.len() - i,
        {
            let c = &char_id_list[i];
            proof {
                assert(ids.subrange(0, i + 1).drop_last() =~= ids.subrange(0, i as int));
                assert(ids.subrange(0, i + 1).last() == c@);
            }
            let id = parse_char_id(c.as_str());
            let before = self.character_work_state.workers.len();
            remove_worker(&mut self.character_work_state.workers, id);
            if self.character_work_state.workers.len() < before {
                let ghost p0 = str_seq(punched@);
                punched.push(c.clone());
                proof {
                    assert(str_seq(punched@) =~= p0.push(c@));
                }
            }
            i += 1;
        }
        proof {
            assert(ids.subrange(0, char_id_list@.len() as int) =~= ids);
        }
        punched
    }
}

} // verus!

verus! {

/// Removing a character leaves no worker of that character.
pub proof fn lemma_without_worker_gone(ws: Seq<CharacterWorker>, id: u32)
    ensures
        forall|j: int| 0 <= j < without_worker(ws, id).len() ==> #[trigger] without_worker(ws, id)[j].char_inst_id != id,
        without_worker(ws, id).len() <= ws.len(),
    decreases ws.len(),
{
    if ws.len() > 0 {
        lemma_without_worker_gone(ws.drop_last(), id);
    }
}

/// After punching out a list of characters, none of them works any more.
pub proof fn lemma_punched_out_gone(ws: Seq<CharacterWorker>, ids: Seq<Seq<char>>)
    ensures
        forall|j: int, k: int|
            0 <= j < punched_out(ws, ids).0.len() && 0 <= k < ids.len() ==> #[trigger] punched_out(ws, ids).0[j].char_inst_id
                != char_id_value(#[trigger] ids[k]),
    decreases ids.len(),
{
    if ids.len() > 0 {
        let d = ids.drop_last();
        lemma_punched_out_gone(ws, d);
        let ws1 = punched_out(ws, d).0;
        let id = char_id_value(ids.last());
        lemma_without_worker_gone(ws1, id);
        lemma_without_worker_subseq(ws1, id);
        let ws2 = punched_out(ws, ids).0;
        assert forall|j: int, k: int| 0 <= j < ws2.len() && 0 <= k < ids.len() implies #[trigger] ws2[j].char_inst_id != char_id_value(
            #[trigger] ids[k],
        ) by {
            if k < ids.len() - 1 {
                let i = choose|i: int| 0 <= i < ws1.len() && ws1[i] == ws2[j];
                assert(d[k] == ids[k]);
                assert(ws1[i].char_inst_id != char_id_value(d[k]));
            }
        }
    }
}

/// Every worker left after a removal was there before.
pub proof fn lemma_without_worker_subseq(ws: Seq<CharacterWorker>, id: u32)
    ensures
        forall|j: int| 0 <= j < without_worker(ws, id).len() ==> exists|i: int| 0 <= i < ws.len() && ws[i] == #[trigger] without_worker(ws, id)[j],
    decreases ws.len(),
{
    if ws.len() > 0 {
        let d = ws.drop_last();
        lemma_without_worker_subseq(d, id);
        let r = without_worker(ws, id);
        assert forall|j: int| 0 <= j < r.len() implies exists|i: int| 0 <= i < ws.len() && ws[i] == #[trigger] r[j] by {
            if j < without_worker(d, id).len() {
                let i = choose|i: int| 0 <= i < d.len() && d[i] == without_worker(d, id)[j];
                assert(ws[i] == d[i]);
            } else {
                assert(ws[ws.len() - 1] == r[j]);
            }
        }
    }
}


/// What the building-speed rule reads of a character skill: the buildings
/// it affects (none listed: every building) and the effect type of each of
/// its parameters (1 is a speed bonus).
#[derive(Debug)]
pub struct SkillEffect {
    pub effect_building_id: Vec<String>,
    pub type_list: Vec<i32>,
}

/// Whether a skill with effect `e` affects building `t`.
pub open spec fn skill_affects(e: SkillEffect, t: Seq<char>) -> bool {
    e.effect_building_id@.len() == 0 || exists|j: int| 0 <= j < e.effect_building_id@.len() && (#[trigger] e.effect_building_id@[j])@ == t
}

/// (skill, parameter index) of each speed entry among the first `n` effect
/// types of skill `sid`, in order.
pub open spec fn speed_entries(sid: Seq<char>, types: Seq<i32>, n: int) -> Seq<(Seq<char>, int)>
    decreases n,
{
    if n <= 0 {
        Seq::empty()
    } else {
        speed_entries(sid, types, n - 1) + if types[n - 1] == 1 { seq![(sid, n - 1)] } else { Seq::empty() }
    }
}

/// The speed entries of skill `sid` for building `t`: none when the skill
/// is unknown or does not affect the building.
pub open spec fn skill_sources(effects: Map<Seq<char>, SkillEffect>, sid: Seq<char>, t: Seq<char>) -> Seq<(Seq<char>, int)> {
    if effects.contains_key(sid) && skill_affects(effects[sid], t) {
        speed_entries(sid, effects[sid].type_list@, effects[sid].type_list@.len() as int)
    } else {
        Seq::empty()
    }
}

/// The speed entries of the first `n` skills of a worker, in order.
pub open spec fn worker_sources(effects: Map<Seq<char>, SkillEffect>, sids: Seq<String>, t: Seq<char>, n: int) -> Seq<(Seq<char>, int)>
    decreases n,
{
    if n <= 0 {
        Seq::empty()
    } else {
        worker_sources(effects, sids, t, n - 1) + skill_sources(effects, sids[n - 1]@, t)
    }
}

/// The speed entries of the first `n` workers that work in region `region`,
/// in order.
pub open spec fn bonus_sources(
    effects: Map<Seq<char>, SkillEffect>,
    ws: Seq<CharacterWorker>,
    region: Seq<char>,
    t: Seq<char>,
    n: int,
) -> Seq<(Seq<char>, int)>
    decreases n,
{
    if n <= 0 {
        Seq::empty()
    } else {
        bonus_sources(effects, ws, region, t, n - 1) + if ws[n - 1].region_name@ == region {
            worker_sources(effects, ws[n - 1].skill_ids@, t, ws[n - 1].skill_ids@.len() as int)
        } else {
            Seq::empty()
        }
    }
}

/// A list of (skill id, parameter index) pairs, as plain values.
pub open spec fn sources_view(v: Seq<(String, usize)>) -> Seq<(Seq<char>, int)> {
    v.map_values(|p: (String, usize)| (p.0@, p.1 as int))
}

/// Whether a skill with effect `e` affects building `template_id`.
fn affects_building(e: &SkillEffect, template_id: &str) -> (r: bool)
    ensures
        r == skill_affects(*e, template_id@),
{
    if e.effect_building_id.len() == 0 {
        return true;
    }
    let target = template_id.to_owned();
    let mut j: usize = 0;
    while j < e.effect_building_id.len()
        invariant
            0 <= j <= e.effect_building_id@.len(),
            target@ == template_id@,
            forall|q: int| 0 <= q < j ==> (#[trigger] e.effect_building_id@[q])@ != template_id@,
        decreases e.effect_building_id@.len() - j,
    {
        if e.effect_building_id[j] == target {
            return true;
        }
        j += 1;
    }
    false
}

impl FactoryManager {
    /// The speed bonuses that apply to building `template_id` in region
    /// `region_name`, as (skill id, parameter index): for each worker of the
    /// region in order, each of its skills found in `skills` that affects
    /// the building, each of its speed parameters in order.
    pub fn speed_bonus_sources(&self, skills: &StrMap<SkillEffect>, region_name: &str, template_id: &str) -> (r: Vec<(String, usize)>)
        ensures
            sources_view(r@) == bonus_sources(
                skills@,
                self.character_work_state.workers@,
                region_name@,
                template_id@,
                self.character_work_state.workers@.len() as int,
            ),
    {
        let ws = &self.character_work_state.workers;
        let region = region_name.to_owned();
        let mut out: Vec<(String, usize)> = Vec::new();
        let mut w: usize = 0;
        while w < ws.len()
            invariant
                0 <= w <= ws@.len(),
                region@ == region_name@,
                sources_view(out@) == bonus_sources(skills@, ws@, region_name@, template_id@, w as int),
            decreases ws@.len() - w,
        {
            let worker = &ws[w];
            let ghost base = sources_view(out@);
            if worker.region_name == region {
                let mut k: usize = 0;
                while k < worker.skill_ids.len()
                    invariant
                        0 <= k <= worker.skill_ids@.len(),
                        sources_view(out@) == base + worker_sources(skills@, worker.skill_ids@, template_id@, k as int),
                    decreases worker.skill_ids@.len() - k,
                {
                    let sid = &worker.skill_ids[k];
                    let ghost mid = sources_view(out@);
                    match skills.get(sid.as_str()) {
                        Some(e) => {
                            if affects_building(e, template_id) {
                                let mut i: usize = 0;
                                while i < e.type_list.len()
                                    invariant
                                        0 <= i <= e.type_list@.len(),
                                        sources_view(out@) == mid + speed_entries(sid@, e.type_list@, i as int),
                                    decreases e.type_list@.len() - i,
                                {
                                    if e.type_list[i] == 1 {
                                        let ghost before = out@;
                                        out.push((sid.clone(), i));
                                        proof {
                                            assert(sources_view(out@) =~= sources_view(before).push((sid@, i as int)));
                                            assert(mid + speed_entries(sid@, e.type_list@, i as int + 1) =~= (mid + speed_entries(
                                                sid@,
                                                e.type_list@,
                                                i as int,
                                            )).push((sid@, i as int)));
                                        }
                                    } else {
                                        proof {
                                            assert(speed_entries(sid@, e.type_list@, i as int + 1) =~= speed_entries(sid@, e.type_list@, i as int));
                                        }
                                    }
                                    i += 1;
                                }
                                proof {
                                    assert(skill_sources(skills@, sid@, template_id@) == speed_entries(sid@, e.type_list@, e.type_list@.len() as int));
                                }
                            } else {
                                proof {
                                    assert(skill_sources(skills@, sid@, template_id@) =~= Seq::<(Seq<char>, int)>::empty());
                                    assert(mid + Seq::<(Seq<char>, int)>::empty() =~= mid);
                                }
                            }
                        },
                        None => {
                            proof {
                                assert(skill_sources(skills@, sid@, template_id@) =~= Seq::<(Seq<char>, int)>::empty());
                                assert(mid + Seq::<(Seq<char>, int)>::empty() =~= mid);
                            }
                        },
                    }
                    proof {
                        assert(sources_view(out@) == mid + skill_sources(skills@, sid@, template_id@));
                        assert(base + worker_sources(skills@, worker.skill_ids@, template_id@, k as int + 1) =~= (base + worker_sources(
                            skills@,
                            worker.skill_ids@,
                            template_id@,
                            k as int,
                        )) + skill_sources(skills@, sid@, template_id@));
                    }
                    k += 1;
                }
                proof {
                    assert(bonus_sources(skills@, ws@, region_name@, template_id@, w as int + 1) =~= base + worker_sources(
                        skills@,
                        worker.skill_ids@,
                        template_id@,
                        worker.skill_ids@.len() as int,
                    ));
                }
            } else {
                proof {
                    assert(bonus_sources(skills@, ws@, region_name@, template_id@, w as int + 1) =~= base);
                }
            }
            w += 1;
        }
        out
    }
}

} // verus!
