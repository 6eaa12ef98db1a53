//! Device profiles, and which of them fit what a probe found out.
use vstd::prelude::*;
use vstd::relations::{
    antisymmetric, reflexive, sorted_by, strongly_connected, total_ordering, transitive,
};
use vstd::seq_lib::lemma_sorted_unique;

use crate::json::{items_view, json_view, lemma_json_view, Json, JsonV};
use crate::report::{ProbeReport, ReportV};
use crate::resource::{ResourceSelection, SelectedOutput};
use crate::schema::{first_of, maybe_text, LocalizedText};
use crate::text::{
    blank, cat2, cat3, comes_before, has_prefix, is_blank, lemma_text_before_total,
    lemma_text_before_transitive, lemma_text_before_irreflexive, same_text, text_before,
};

verus! {

// ---------------------------------------------------------------------------
// Types
// ---------------------------------------------------------------------------

/// A condition on one fact about a device.
#[derive(Debug, Clone, PartialEq)]
pub struct MatchRule {
    pub field: String,
    pub op: String,
    pub value: Json,
}

/// Resources to select in one go.
#[derive(Debug, Clone, PartialEq)]
pub struct Preset {
    pub id: String,
    pub label: LocalizedText,
    pub selections: Vec<ResourceSelection>,
    pub rate_class: Option<String>,
}

/// What is known of a kind of device.
#[derive(Debug, Clone, PartialEq)]
pub struct DeviceProfile {
    pub profile_version: u32,
    pub id: String,
    pub version: String,
    pub vendor: String,
    pub family: String,
    pub model: String,
    pub driver_id: String,
    pub match_rules: Vec<MatchRule>,
    pub connection_defaults: Json,
    pub rate_classes: Vec<(String, u64)>,
    pub presets: Vec<Preset>,
}

/// A profile that fits.
#[derive(Debug, Clone, PartialEq, Eq)]
pub struct ProfileMatch {
    pub profile_id: String,
}

// ---------------------------------------------------------------------------
// Whether a profile makes sense
// ---------------------------------------------------------------------------

/// The facts that a rule can speak of.
pub open spec fn known_field(f: Seq<char>) -> bool {
    ||| f == "driver_id"@
    ||| f == "probe.vendor"@
    ||| f == "probe.family"@
    ||| f == "probe.model"@
    ||| f == "probe.firmware"@
}

/// The comparisons that a rule can make.
pub open spec fn known_op(op: Seq<char>) -> bool {
    op == "eq"@ || op == "in"@ || op == "prefix"@
}

/// The first rule from `i` on that speaks of no fact or makes no comparison.
pub open spec fn rules_defect(rules: Seq<MatchRule>, i: int) -> Option<Seq<char>>
    decreases rules.len() - i,
{
    if i >= rules.len() {
        None
    } else if !known_field(rules[i].field@) {
        Some("match_rule field 非法: "@ + rules[i].field@)
    } else if !known_op(rules[i].op@) {
        Some("match_rule op 非法: "@ + rules[i].op@)
    } else {
        rules_defect(rules, i + 1)
    }
}

/// Whether one of the outputs becomes a point under a blank key.
pub open spec fn has_blank_key(outputs: Seq<SelectedOutput>) -> bool {
    exists|i: int| 0 <= i < outputs.len() && blank((#[trigger] outputs[i]).point_key@)
}

/// The first thing that is wrong with the selections of a preset from `i` on.
pub open spec fn preset_selections_defect(
    id: Seq<char>,
    selections: Seq<ResourceSelection>,
    i: int,
) -> Option<Seq<char>>
    decreases selections.len() - i,
{
    if i >= selections.len() {
        None
    } else if blank(selections[i].resource_id@) {
        Some("preset "@ + id + " resource_id 不能为空"@)
    } else if has_blank_key(selections[i].outputs@) {
        Some("preset "@ + id + " point_key 不能为空"@)
    } else {
        preset_selections_defect(id, selections, i + 1)
    }
}

/// Whether one of the presets has an id.
pub open spec fn has_preset(presets: Seq<Preset>, id: Seq<char>) -> bool {
    exists|i: int| 0 <= i < presets.len() && (#[trigger] presets[i]).id@ == id
}

/// The first thing that is wrong with the presets from `i` on.
pub open spec fn presets_defect(presets: Seq<Preset>, i: int) -> Option<Seq<char>>
    decreases presets.len() - i,
{
    if i >= presets.len() {
        None
    } else if blank(presets[i].id@) {
        Some("preset id 不能为空"@)
    } else if has_preset(presets.subrange(0, i), presets[i].id@) {
        Some("preset id 重复: "@ + presets[i].id@)
    } else {
        first_of(
            preset_selections_defect(presets[i].id@, presets[i].selections@, 0),
            presets_defect(presets, i + 1),
        )
    }
}

/// The first thing that is wrong with a profile.
pub open spec fn profile_defect(p: DeviceProfile) -> Option<Seq<char>> {
    if blank(p.id@) {
        Some("profile id 不能为空"@)
    } else if blank(p.driver_id@) {
        Some("driver_id 不能为空"@)
    } else {
        first_of(rules_defect(p.match_rules@, 0), presets_defect(p.presets@, 0))
    }
}

fn rules_fault(rules: &Vec<MatchRule>) -> (r: Option<String>)
    ensures
        maybe_text(r) == rules_defect(rules@, 0),
{
    let mut i: usize = 0;
    while i < rules.len()
        invariant
            i <= rules.len(),
            rules_defect(rules@, 0) == rules_defect(rules@, i as int),
        decreases rules.len() - i,
    {
        let f: &str = rules[i].field.as_str();
        if !(same_text(f, "driver_id") || same_text(f, "probe.vendor") || same_text(
            f,
            "probe.family",
        ) || same_text(f, "probe.model") || same_text(f, "probe.firmware")) {
            return Some(cat2("match_rule field 非法: ", f));
        }
        let op: &str = rules[i].op.as_str();
        if !(same_text(op, "eq") || same_text(op, "in") || same_text(op, "prefix")) {
            return Some(cat2("match_rule op 非法: ", op));
        }
        i = i + 1;
    }
    None
}

fn blank_key(outputs: &Vec<SelectedOutput>) -> (r: bool)
    ensures
        r == has_blank_key(outputs@),
{
    let mut i: usize = 0;
    while i < outputs.len()
        invariant
            i <= outputs.len(),
            forall|j: int| 0 <= j < i ==> !blank((#[trigger] outputs@[j]).point_key@),
        decreases outputs.len() - i,
    {
        if is_blank(outputs[i].point_key.as_str()) {
            assert(blank(outputs@[i as int].point_key@));
            return true;
        }
        i = i + 1;
    }
    false
}

impl Preset {
    fn selections_fault(&self) -> (r: Option<String>)
        ensures
            maybe_text(r) == preset_selections_defect(self.id@, self.selections@, 0),
    {
        let mut i: usize = 0;
        while i < self.selections.len()
            invariant
                i <= self.selections.len(),
                preset_selections_defect(self.id@, self.selections@, 0)
                    == preset_selections_defect(self.id@, self.selections@, i as int),
            decreases self.selections.len() - i,
        {
            if is_blank(self.selections[i].resource_id.as_str()) {
                return Some(cat3("preset ", self.id.as_str(), " resource_id 不能为空"));
            }
            if blank_key(&self.selections[i].outputs) {
                return Some(cat3("preset ", self.id.as_str(), " point_key 不能为空"));
            }
            i = i + 1;
        }
        None
    }
}

impl DeviceProfile {
    /// Whether the profile makes sense; else the first thing that is wrong with it.
    pub fn validate(&self) -> (r: Result<(), String>)
        ensures
            match r {
                Ok(()) => profile_defect(*self) is None,
                Err(m) => profile_defect(*self) == Some(m@),
            },
    {
        if is_blank(self.id.as_str()) {
            return Err("profile id 不能为空".to_owned());
        }
        if is_blank(self.driver_id.as_str()) {
            return Err("driver_id 不能为空".to_owned());
        }
        match rules_fault(&self.match_rules) {
            Some(m) => {
                return Err(m);
            },
            None => {},
        }
        let mut i: usize = 0;
        while i < self.presets.len()
            invariant
                i <= self.presets.len(),
                profile_defect(*self) == presets_defect(self.presets@, i as int),
            decreases self.presets.len() - i,
        {
            let p: &Preset = &self.presets[i];
            if is_blank(p.id.as_str()) {
                return Err("preset id 不能为空".to_owned());
            }
            let ghost part = self.presets@.subrange(0, i as int);
            let mut j: usize = 0;
            while j < i
                invariant
                    j <= i < self.presets.len(),
                    p == &self.presets@[i as int],
                    !blank(p.id@),
                    part == self.presets@.subrange(0, i as int),
                    profile_defect(*self) == presets_defect(self.presets@, i as int),
                    forall|k: int| 0 <= k < j ==> (#[trigger] part[k]).id@ != p.id@,
                decreases i - j,
            {
                if same_text(self.presets[j].id.as_str(), p.id.as_str()) {
                    assert(part[j as int].id@ == p.id@);
                    return Err(cat2("preset id 重复: ", p.id.as_str()));
                }
                j = j + 1;
            }
            match p.selections_fault() {
                Some(m) => {
                    return Err(m);
                },
                None => {},
            }
            i = i + 1;
        }
        Ok(())
    }
}

/// The profiles among the first `n` that were found which can be read and make sense, in the order
/// in which they were found.
pub open spec fn sound_profiles(found: Seq<Result<DeviceProfile, String>>, n: int) -> Seq<
    DeviceProfile,
>
    decreases n,
{
    if n <= 0 {
        Seq::empty()
    } else {
        match found[n - 1] {
            Ok(p) if profile_defect(p) is None => sound_profiles(found, n - 1).push(p),
            _ => sound_profiles(found, n - 1),
        }
    }
}

/// The profiles that can be read and make sense. `found` says of each file what it holds, or why
/// it cannot be read.
pub fn load_profiles(found: Vec<Result<DeviceProfile, String>>) -> (r: Vec<DeviceProfile>)
    ensures
        r@ == sound_profiles(found@, found@.len() as int),
{
    let ghost all = found@;
    let mut out: Vec<DeviceProfile> = Vec::new();
    for f in it: found
        invariant
            it.seq() == all,
            out@ == sound_profiles(all, it.index() as int),
    {
        match f {
            Ok(p) => match p.validate() {
                Ok(()) => {
                    out.push(p);
                },
                Err(_) => {},
            },
            Err(_) => {},
        }
    }
    out
}

/// Each profile that is loaded makes sense.
pub proof fn loaded_profiles_are_sound(found: Seq<Result<DeviceProfile, String>>, n: int, i: int)
    requires
        0 <= n <= found.len(),
        0 <= i < sound_profiles(found, n).len(),
    ensures
        profile_defect(sound_profiles(found, n)[i]) is None,
    decreases n,
{
    if n > 0 && i < sound_profiles(found, n - 1).len() {
        loaded_profiles_are_sound(found, n - 1, i);
    }
}

/// The selections that a preset stands for.
pub fn expand_preset(preset: &Preset) -> (r: &Vec<ResourceSelection>)
    ensures
        r == preset.selections,
{
    &preset.selections
}

// ---------------------------------------------------------------------------
// Whether a profile fits
// ---------------------------------------------------------------------------

/// A fact about a device: the driver in use, or what the probe found out.
pub open spec fn fact(driver_id: Seq<char>, report: ReportV, field: Seq<char>) -> Option<Seq<char>> {
    if field == "driver_id"@ {
        Some(driver_id)
    } else if field == "probe.vendor"@ {
        report.vendor
    } else if field == "probe.family"@ {
        report.family
    } else if field == "probe.model"@ {
        report.model
    } else if field == "probe.firmware"@ {
        report.firmware
    } else {
        None
    }
}

/// Whether a list of values holds a text.
pub open spec fn items_hold(a: Seq<JsonV>, s: Seq<char>) -> bool {
    exists|i: int| 0 <= i < a.len() && #[trigger] a[i] == JsonV::String(s)
}

/// Whether a fact is as a rule wants it. What was not found out is as no rule wants it.
pub open spec fn rule_holds(driver_id: Seq<char>, report: ReportV, rule: MatchRule) -> bool {
    match fact(driver_id, report, rule.field@) {
        None => false,
        Some(f) => if rule.op@ == "eq"@ {
            rule.value@ == JsonV::String(f)
        } else if rule.op@ == "in"@ {
            rule.value@ matches JsonV::Array(a) && items_hold(a, f)
        } else if rule.op@ == "prefix"@ {
            rule.value@ matches JsonV::String(p) && p.is_prefix_of(f)
        } else {
            false
        },
    }
}

/// How much a rule on a fact says.
pub open spec fn weight(field: Seq<char>) -> nat {
    if field == "probe.model"@ {
        4
    } else if field == "probe.family"@ || field == "probe.firmware"@ {
        3
    } else if field == "probe.vendor"@ {
        2
    } else if field == "driver_id"@ {
        1
    } else {
        0
    }
}

/// How much some rules say together.
pub open spec fn specificity(rules: Seq<MatchRule>) -> nat
    decreases rules.len(),
{
    if rules.len() == 0 {
        0
    } else {
        specificity(rules.drop_last()) + weight(rules.last().field@)
    }
}

/// Whether every rule of a profile holds.
pub open spec fn profile_fits(driver_id: Seq<char>, report: ReportV, p: DeviceProfile) -> bool {
    forall|i: int|
        0 <= i < p.match_rules@.len() ==> rule_holds(
            driver_id,
            report,
            #[trigger] p.match_rules@[i],
        )
}

/// A profile that fits: how much its rules say, and its id.
pub type Hit = (nat, Seq<char>);

/// The profiles that fit, in the order in which they are given.
pub open spec fn hits(driver_id: Seq<char>, report: ReportV, profiles: Seq<DeviceProfile>) -> Seq<Hit>
    decreases profiles.len(),
{
    if profiles.len() == 0 {
        Seq::empty()
    } else {
        let front = hits(driver_id, report, profiles.drop_last());
        let p = profiles.last();
        if profile_fits(driver_id, report, p) {
            front.push((specificity(p.match_rules@), p.id@))
        } else {
            front
        }
    }
}

/// The order of profiles that fit: those that say more first, and then by id.
pub open spec fn hit_before(a: Hit, b: Hit) -> bool {
    a.0 > b.0 || (a.0 == b.0 && (a.1 == b.1 || text_before(a.1, b.1)))
}

/// That order as a relation.
pub open spec fn hit_order() -> spec_fn(Hit, Hit) -> bool {
    |a: Hit, b: Hit| hit_before(a, b)
}

/// A list in order with one more in its place.
pub open spec fn hit_inserted(sorted: Seq<Hit>, h: Hit) -> Seq<Hit>
    decreases sorted.len(),
{
    if sorted.len() == 0 || hit_before(sorted.last(), h) {
        sorted.push(h)
    } else {
        hit_inserted(sorted.drop_last(), h).push(sorted.last())
    }
}

/// A list brought in order.
pub open spec fn hits_sorted(list: Seq<Hit>) -> Seq<Hit>
    decreases list.len(),
{
    if list.len() == 0 {
        list
    } else {
        hit_inserted(hits_sorted(list.drop_last()), list.last())
    }
}

pub fn probe_fact<'a>(driver_id: &'a str, report: &'a ProbeReport, field: &str) -> (r: Option<
    &'a str,
>)
    ensures
        match r {
            Some(s) => fact(driver_id@, report@, field@) == Some(s@),
            None => fact(driver_id@, report@, field@) is None,
        },
{
    let found: &Option<String> = if same_text(field, "driver_id") {
        return Some(driver_id);
    } else if same_text(field, "probe.vendor") {
        &report.vendor
    } else if same_text(field, "probe.family") {
        &report.family
    } else if same_text(field, "probe.model") {
        &report.model
    } else if same_text(field, "probe.firmware") {
        &report.firmware
    } else {
        return None;
    };
    match found {
        Some(s) => Some(s.as_str()),
        None => None,
    }
}

pub fn rule_matches(driver_id: &str, report: &ProbeReport, rule: &MatchRule) -> (r: bool)
    ensures
        r == rule_holds(driver_id@, report@, *rule),
{
    broadcast use lemma_json_view;

    let f: &str = match probe_fact(driver_id, report, rule.field.as_str()) {
        Some(f) => f,
        None => {
            return false;
        },
    };
    if same_text(rule.op.as_str(), "eq") {
        match &rule.value {
            Json::String(v) => same_text(v.as_str(), f),
            _ => false,
        }
    } else if same_text(rule.op.as_str(), "in") {
        match &rule.value {
            Json::Array(a) => {
                let ghost all = items_view(a@);
                assert(json_view(rule.value) == JsonV::Array(all));
                let mut i: usize = 0;
                while i < a.len()
                    invariant
                        i <= a.len(),
                        all == items_view(a@),
                        rule.value@ == JsonV::Array(all),
                        rule.op@ != "eq"@,
                        rule.op@ == "in"@,
                        fact(driver_id@, report@, rule.field@) == Some(f@),
                        forall|j: int| 0 <= j < i ==> #[trigger] all[j] != JsonV::String(f@),
                    decreases a.len() - i,
                {
                    assert(all[i as int] == a@[i as int]@);
                    match &a[i] {
                        Json::String(s) => {
                            if same_text(s.as_str(), f) {
                                assert(all[i as int] == JsonV::String(f@));
                                assert(items_hold(all, f@));
                                return true;
                            }
                        },
                        _ => {},
                    }
                    i = i + 1;
                }
                assert(!items_hold(all, f@));
                false
            },
            _ => false,
        }
    } else if same_text(rule.op.as_str(), "prefix") {
        match &rule.value {
            Json::String(p) => has_prefix(f, p.as_str()),
            _ => false,
        }
    } else {
        false
    }
}

pub fn rule_weight(field: &str) -> (r: u32)
    ensures
        r == weight(field@),
{
    if same_text(field, "probe.model") {
        4
    } else if same_text(field, "probe.family") || same_text(field, "probe.firmware") {
        3
    } else if same_text(field, "probe.vendor") {
        2
    } else if same_text(field, "driver_id") {
        1
    } else {
        0
    }
}

fn fits(driver_id: &str, report: &ProbeReport, p: &DeviceProfile) -> (r: bool)
    ensures
        r == profile_fits(driver_id@, report@, *p),
{
    let mut i: usize = 0;
    while i < p.match_rules.len()
        invariant
            i <= p.match_rules.len(),
            forall|j: int|
                0 <= j < i ==> rule_holds(driver_id@, report@, #[trigger] p.match_rules@[j]),
        decreases p.match_rules.len() - i,
    {
        if !rule_matches(driver_id, report, &p.match_rules[i]) {
            assert(!rule_holds(driver_id@, report@, p.match_rules@[i as int]));
            return false;
        }
        i = i + 1;
    }
    true
}

fn total_weight(rules: &Vec<MatchRule>) -> (r: u128)
    ensures
        r == specificity(rules@),
{
    let mut sum: u128 = 0;
    let mut i: usize = 0;
    while i < rules.len()
        invariant
            i <= rules.len(),
            sum == specificity(rules@.subrange(0, i as int)),
            sum <= 4 * i,
        decreases rules.len() - i,
    {
        let ghost part = rules@.subrange(0, i + 1);
        assert(part.drop_last() =~= rules@.subrange(0, i as int));
        sum = sum + rule_weight(rules[i].field.as_str()) as u128;
        i = i + 1;
    }
    assert(rules@.subrange(0, rules@.len() as int) =~= rules@);
    sum
}

spec fn hits_view(list: Seq<(u128, String)>) -> Seq<Hit> {
    list.map_values(|h: (u128, String)| (h.0 as nat, h.1@))
}

fn not_after(a: &(u128, String), b: &(u128, String)) -> (r: bool)
    ensures
        r == hit_before((a.0 as nat, a.1@), (b.0 as nat, b.1@)),
{
    a.0 > b.0 || (a.0 == b.0 && (same_text(a.1.as_str(), b.1.as_str()) || comes_before(
        a.1.as_str(),
        b.1.as_str(),
    )))
}

fn insert_hit(sorted: &mut Vec<(u128, String)>, h: (u128, String))
    ensures
        hits_view(final(sorted)@) == hit_inserted(hits_view(old(sorted)@), (h.0 as nat, h.1@)),
{
    let ghost all = hits_view(sorted@);
    let ghost one: Hit = (h.0 as nat, h.1@);
    let n: usize = sorted.len();
    let mut i: usize = n;
    assert(all.subrange(0, n as int) =~= all);
    assert(all.subrange(n as int, n as int) =~= Seq::<Hit>::empty());
    assert(hit_inserted(all, one) + Seq::<Hit>::empty() =~= hit_inserted(all, one));
    while i > 0 && !not_after(&sorted[i - 1], &h)
        invariant
            i <= n,
            n == sorted.len(),
            sorted@ == old(sorted)@,
            all == hits_view(sorted@),
            one == (h.0 as nat, h.1@),
            hit_inserted(all, one) == hit_inserted(all.subrange(0, i as int), one) + all.subrange(
                i as int,
                n as int,
            ),
        decreases i,
    {
        let ghost front = all.subrange(0, i as int);
        assert(front.last() == all[i - 1]);
        assert(front.drop_last() =~= all.subrange(0, i - 1));
        assert(hit_inserted(front.drop_last(), one).push(front.last()) + all.subrange(
            i as int,
            n as int,
        ) =~= hit_inserted(front.drop_last(), one) + all.subrange(i - 1, n as int));
        i = i - 1;
    }
    proof {
        let front = all.subrange(0, i as int);
        if i > 0 {
            assert(front.last() == all[i - 1]);
        }
        assert(hit_inserted(front, one) == front.push(one));
    }
    sorted.insert(i, h);
    assert(hits_view(sorted@) =~= all.subrange(0, i as int).push(one) + all.subrange(
        i as int,
        n as int,
    ));
}

/// The ids of some profiles that fit.
pub open spec fn hit_ids(list: Seq<Hit>) -> Seq<Seq<char>> {
    list.map_values(|h: Hit| h.1)
}

/// The profiles all of whose rules hold: those whose rules say more first, and then by id.
pub fn match_profiles(driver_id: &str, report: &ProbeReport, profiles: &[DeviceProfile]) -> (r: Vec<
    ProfileMatch,
>)
    ensures
        r@.map_values(|m: ProfileMatch| m.profile_id@) == hit_ids(
            hits_sorted(hits(driver_id@, report@, profiles@)),
        ),
{
    let mut sorted: Vec<(u128, String)> = Vec::new();
    assert(hits_view(sorted@) =~= Seq::<Hit>::empty());
    let mut i: usize = 0;
    while i < profiles.len()
        invariant
            i <= profiles.len(),
            hits_view(sorted@) == hits_sorted(
                hits(driver_id@, report@, profiles@.subrange(0, i as int)),
            ),
        decreases profiles.len() - i,
    {
        let p: &DeviceProfile = &profiles[i];
        let ghost part = profiles@.subrange(0, i + 1);
        assert(part.drop_last() =~= profiles@.subrange(0, i as int));
        if fits(driver_id, report, p) {
            let ghost front = hits(driver_id@, report@, part.drop_last());
            let ghost whole = hits(driver_id@, report@, part);
            assert(whole.drop_last() =~= front);
            insert_hit(&mut sorted, (total_weight(&p.match_rules), p.id.clone()));
        }
        i = i + 1;
    }
    assert(profiles@.subrange(0, profiles@.len() as int) =~= profiles@);
    let ghost all = hits_view(sorted@);
    let mut out: Vec<ProfileMatch> = Vec::new();
    let mut k: usize = 0;
    while k < sorted.len()
        invariant
            k <= sorted.len(),
            out.len() == k,
            forall|j: int| 0 <= j < k ==> (#[trigger] out@[j]).profile_id@ == sorted@[j].1@,
        decreases sorted.len() - k,
    {
        out.push(ProfileMatch { profile_id: sorted[k].1.clone() });
        k = k + 1;
    }
    assert(out@.map_values(|m: ProfileMatch| m.profile_id@) =~= hit_ids(all));
    out
}

// ---------------------------------------------------------------------------
// The order of the result
// ---------------------------------------------------------------------------

proof fn lemma_hit_order()
    ensures
        total_ordering(hit_order()),
{
    let leq = hit_order();
    assert(reflexive(leq));
    assert(antisymmetric(leq)) by {
        assert forall|a: Hit, b: Hit| #[trigger] leq(a, b) && #[trigger] leq(b, a) implies a
            == b by {
            if a.1 != b.1 {
                lemma_text_before_transitive(a.1, b.1, a.1);
                lemma_text_before_irreflexive(a.1);
            }
        }
    }
    assert(transitive(leq)) by {
        assert forall|a: Hit, b: Hit, c: Hit| #[trigger] leq(a, b) && #[trigger] leq(
            b,
            c,
        ) implies leq(a, c) by {
            if a.0 == b.0 && b.0 == c.0 && a.1 != b.1 && b.1 != c.1 {
                lemma_text_before_transitive(a.1, b.1, c.1);
            }
        }
    }
    assert(strongly_connected(leq)) by {
        assert forall|a: Hit, b: Hit| #[trigger] leq(a, b) || #[trigger] leq(b, a) by {
            lemma_text_before_total(a.1, b.1);
        }
    }
}

proof fn lemma_inserted(sorted: Seq<Hit>, h: Hit)
    requires
        sorted_by(sorted, hit_order()),
    ensures
        sorted_by(hit_inserted(sorted, h), hit_order()),
        hit_inserted(sorted, h).to_multiset() == sorted.to_multiset().insert(h),
        forall|x: Hit|
            hit_inserted(sorted, h).contains(x) ==> x == h || sorted.contains(x),
    decreases sorted.len(),
{
    let leq = hit_order();
    lemma_hit_order();
    let r = hit_inserted(sorted, h);
    if sorted.len() == 0 || hit_before(sorted.last(), h) {
        vstd::seq_lib::to_multiset_build(sorted, h);
        assert(r == sorted.push(h));
        assert forall|i: int, j: int| 0 <= i < j < r.len() implies #[trigger] leq(r[i], r[j]) by {
            if j < sorted.len() {
                assert(leq(sorted[i], sorted[j]));
            } else {
                assert(leq(sorted.last(), h));
                if i < sorted.len() - 1 {
                    assert(leq(sorted[i], sorted[sorted.len() - 1]));
                }
            }
        }
        assert forall|x: Hit| r.contains(x) implies x == h || sorted.contains(x) by {
            let i = choose|i: int| 0 <= i < r.len() && r[i] == x;
            if i < sorted.len() {
                assert(sorted[i] == x);
            }
        }
    } else {
        let front = sorted.drop_last();
        let last = sorted.last();
        assert(sorted_by(front, leq)) by {
            assert forall|i: int, j: int| 0 <= i < j < front.len() implies #[trigger] leq(
                front[i],
                front[j],
            ) by {
                assert(leq(sorted[i], sorted[j]));
            }
        }
        lemma_inserted(front, h);
        let f = hit_inserted(front, h);
        vstd::seq_lib::to_multiset_build(f, last);
        vstd::seq_lib::to_multiset_build(front, last);
        assert(front.push(last) =~= sorted);
        assert(r.to_multiset() =~= sorted.to_multiset().insert(h));
        assert(r == f.push(last));
        assert(leq(last, h) || leq(h, last));
        assert(!hit_before(last, h));
        assert(leq(h, last));
        assert forall|i: int, j: int| 0 <= i < j < r.len() implies #[trigger] leq(r[i], r[j]) by {
            if j < f.len() {
                assert(leq(f[i], f[j]));
            } else {
                assert(r[j] == last);
                assert(r[i] == f[i]);
                assert(f.contains(f[i]));
                if f[i] != h {
                    assert(front.contains(f[i]));
                    let k = choose|k: int| 0 <= k < front.len() && front[k] == f[i];
                    assert(leq(sorted[k], sorted[sorted.len() - 1]));
                }
            }
        }
        assert forall|x: Hit| r.contains(x) implies x == h || sorted.contains(x) by {
            let i = choose|i: int| 0 <= i < r.len() && r[i] == x;
            if i < f.len() {
                assert(f.contains(f[i]));
                if x != h {
                    assert(front.contains(x));
                    let k = choose|k: int| 0 <= k < front.len() && front[k] == x;
                    assert(sorted[k] == x);
                }
            } else {
                assert(sorted[sorted.len() - 1] == x);
            }
        }
    }
}

proof fn lemma_sorted(list: Seq<Hit>)
    ensures
        sorted_by(hits_sorted(list), hit_order()),
        hits_sorted(list).to_multiset() == list.to_multiset(),
    decreases list.len(),
{
    if list.len() > 0 {
        lemma_sorted(list.drop_last());
        lemma_inserted(hits_sorted(list.drop_last()), list.last());
        vstd::seq_lib::to_multiset_build(list.drop_last(), list.last());
        assert(list.drop_last().push(list.last()) =~= list);
    }
}

proof fn lemma_hits_without(
    driver_id: Seq<char>,
    report: ReportV,
    profiles: Seq<DeviceProfile>,
    i: int,
)
    requires
        0 <= i < profiles.len(),
    ensures
        hits(driver_id, report, profiles).to_multiset() == if profile_fits(
            driver_id,
            report,
            profiles[i],
        ) {
            hits(driver_id, report, profiles.remove(i)).to_multiset().insert(
                (specificity(profiles[i].match_rules@), profiles[i].id@),
            )
        } else {
            hits(driver_id, report, profiles.remove(i)).to_multiset()
        },
    decreases profiles.len(),
{
    broadcast use vstd::seq_lib::group_to_multiset_ensures;

    let p = profiles[i];
    let last = profiles.last();
    let front = profiles.drop_last();
    if i == profiles.len() - 1 {
        assert(profiles.remove(i) =~= front);
    } else {
        let rest = profiles.remove(i);
        lemma_hits_without(driver_id, report, front, i);
        assert(rest.drop_last() =~= front.remove(i));
        assert(rest.last() == last);
        let one: Hit = (specificity(p.match_rules@), p.id@);
        let other: Hit = (specificity(last.match_rules@), last.id@);
        let shorter = hits(driver_id, report, front.remove(i)).to_multiset();
        assert(shorter.insert(one).insert(other) =~= shorter.insert(other).insert(one));
    }
}

proof fn lemma_hits_of_same_profiles(
    driver_id: Seq<char>,
    report: ReportV,
    a: Seq<DeviceProfile>,
    b: Seq<DeviceProfile>,
)
    requires
        a.to_multiset() == b.to_multiset(),
    ensures
        hits(driver_id, report, a).to_multiset() == hits(driver_id, report, b).to_multiset(),
    decreases a.len(),
{
    broadcast use vstd::seq_lib::group_to_multiset_ensures;

    assert(a.len() == a.to_multiset().len());
    assert(b.len() == b.to_multiset().len());
    if a.len() > 0 {
        let i = a.len() - 1;
        let p = a[i];
        assert(a.contains(p));
        assert(a.to_multiset().count(p) > 0);
        assert(b.contains(p));
        let j = choose|j: int| 0 <= j < b.len() && b[j] == p;
        assert(a.remove(i).to_multiset() =~= b.remove(j).to_multiset());
        lemma_hits_of_same_profiles(driver_id, report, a.remove(i), b.remove(j));
        lemma_hits_without(driver_id, report, a, i);
        lemma_hits_without(driver_id, report, b, j);
    }
}

/// The result holds each profile that fits as often as it is given, those whose rules say more
/// before the others, and under equal weight by id.
pub proof fn matches_are_ordered(
    driver_id: Seq<char>,
    report: ReportV,
    profiles: Seq<DeviceProfile>,
)
    ensures
        sorted_by(hits_sorted(hits(driver_id, report, profiles)), hit_order()),
        hits_sorted(hits(driver_id, report, profiles)).to_multiset() == hits(
            driver_id,
            report,
            profiles,
        ).to_multiset(),
{
    lemma_sorted(hits(driver_id, report, profiles));
}

proof fn lemma_hit_of(driver_id: Seq<char>, report: ReportV, profiles: Seq<DeviceProfile>, h: Hit)
    ensures
        hits(driver_id, report, profiles).contains(h) <==> exists|i: int|
            0 <= i < profiles.len() && profile_fits(driver_id, report, #[trigger] profiles[i]) && h
                == (specificity(profiles[i].match_rules@), profiles[i].id@),
    decreases profiles.len(),
{
    if profiles.len() > 0 {
        let init = profiles.drop_last();
        let front = hits(driver_id, report, init);
        let all = hits(driver_id, report, profiles);
        lemma_hit_of(driver_id, report, init, h);
        if front.contains(h) {
            let i = choose|i: int|
                0 <= i < init.len() && profile_fits(driver_id, report, #[trigger] init[i]) && h == (
                    specificity(init[i].match_rules@),
                    init[i].id@,
                );
            assert(profiles[i] == init[i]);
            let k = choose|k: int| 0 <= k < front.len() && front[k] == h;
            assert(all[k] == h);
        }
        if all.contains(h) && !front.contains(h) {
            let k = choose|k: int| 0 <= k < all.len() && all[k] == h;
            if k < front.len() {
                assert(front[k] == h);
            }
            assert(profiles[profiles.len() - 1] == profiles.last());
        }
        if exists|i: int|
            0 <= i < profiles.len() && profile_fits(driver_id, report, #[trigger] profiles[i]) && h
                == (specificity(profiles[i].match_rules@), profiles[i].id@) {
            let i = choose|i: int|
                0 <= i < profiles.len() && profile_fits(driver_id, report, #[trigger] profiles[i])
                    && h == (specificity(profiles[i].match_rules@), profiles[i].id@);
            if i < init.len() {
                assert(init[i] == profiles[i]);
            } else {
                assert(all[all.len() - 1] == h);
            }
        }
    }
}

/// The result names a profile just where one of that name fits: none that fits is left out, and
/// none that does not is there.
pub proof fn matches_are_complete(
    driver_id: Seq<char>,
    report: ReportV,
    profiles: Seq<DeviceProfile>,
    id: Seq<char>,
)
    ensures
        hit_ids(hits_sorted(hits(driver_id, report, profiles))).contains(id) <==> exists|i: int|
            0 <= i < profiles.len() && profile_fits(driver_id, report, #[trigger] profiles[i])
                && profiles[i].id@ == id,
{
    broadcast use vstd::seq_lib::group_to_multiset_ensures;

    let list = hits(driver_id, report, profiles);
    let sorted = hits_sorted(list);
    lemma_sorted(list);
    if hit_ids(sorted).contains(id) {
        let k = choose|k: int| 0 <= k < sorted.len() && hit_ids(sorted)[k] == id;
        assert(sorted.to_multiset().count(sorted[k]) > 0);
        assert(list.contains(sorted[k]));
        lemma_hit_of(driver_id, report, profiles, sorted[k]);
    }
    if exists|i: int|
        0 <= i < profiles.len() && profile_fits(driver_id, report, #[trigger] profiles[i])
            && profiles[i].id@ == id {
        let i = choose|i: int|
            0 <= i < profiles.len() && profile_fits(driver_id, report, #[trigger] profiles[i])
                && profiles[i].id@ == id;
        let h = (specificity(profiles[i].match_rules@), profiles[i].id@);
        lemma_hit_of(driver_id, report, profiles, h);
        assert(list.to_multiset().count(h) > 0);
        assert(sorted.contains(h));
        let k = choose|k: int| 0 <= k < sorted.len() && sorted[k] == h;
        assert(hit_ids(sorted)[k] == id);
    }
}

/// The result does not depend on the order in which the profiles are given.
pub proof fn matches_do_not_depend_on_the_given_order(
    driver_id: Seq<char>,
    report: ReportV,
    a: Seq<DeviceProfile>,
    b: Seq<DeviceProfile>,
)
    requires
        a.to_multiset() == b.to_multiset(),
    ensures
        hits_sorted(hits(driver_id, report, a)) == hits_sorted(hits(driver_id, report, b)),
{
    lemma_hits_of_same_profiles(driver_id, report, a, b);
    let x = hits(driver_id, report, a);
    let y = hits(driver_id, report, b);
    lemma_sorted(x);
    lemma_sorted(y);
    lemma_hit_order();
    lemma_sorted_unique(hits_sorted(x), hits_sorted(y), hit_order());
}

/// What the probe did not find out is as no rule wants it.
pub proof fn unknown_facts_match_nothing(driver_id: Seq<char>, report: ReportV, rule: MatchRule)
    requires
        fact(driver_id, report, rule.field@) is None,
    ensures
        !rule_holds(driver_id, report, rule),
{
}

/// A rule that asks for a text holds exactly where the driver in use, or what the probe found out
/// under the name of the rule's field, is that text.
pub proof fn facts_are_asked_for_by_name(
    driver_id: Seq<char>,
    report: ReportV,
    rule: MatchRule,
    t: Seq<char>,
)
    requires
        rule.op@ == "eq"@,
        rule.value@ == JsonV::String(t),
    ensures
        rule.field@ == "driver_id"@ ==> (rule_holds(driver_id, report, rule) <==> driver_id == t),
        rule.field@ == "probe.vendor"@ ==> (rule_holds(driver_id, report, rule) <==> report.vendor
            == Some(t)),
        rule.field@ == "probe.family"@ ==> (rule_holds(driver_id, report, rule) <==> report.family
            == Some(t)),
        rule.field@ == "probe.model"@ ==> (rule_holds(driver_id, report, rule) <==> report.model
            == Some(t)),
        rule.field@ == "probe.firmware"@ ==> (rule_holds(driver_id, report, rule)
            <==> report.firmware == Some(t)),
        rule.field@ != "driver_id"@ && rule.field@ != "probe.vendor"@ && rule.field@
            != "probe.family"@ && rule.field@ != "probe.model"@ && rule.field@ != "probe.firmware"@
            ==> !rule_holds(driver_id, report, rule),
{
    reveal_strlit("driver_id");
    reveal_strlit("probe.vendor");
    reveal_strlit("probe.family");
    reveal_strlit("probe.model");
    reveal_strlit("probe.firmware");
    assert("driver_id"@.len() == 9);
    assert("probe.model"@.len() == 11);
    assert("probe.firmware"@.len() == 14);
    assert("probe.vendor"@.len() == 12);
    assert("probe.family"@.len() == 12);
    assert("probe.vendor"@[6] == 'v');
    assert("probe.family"@[6] == 'f');
}

/// What a rule asks of a fact `f` that is known: that it is the text given, that it is one of the
/// texts given, or that it begins with the text given.
pub proof fn rules_ask_for_texts(
    driver_id: Seq<char>,
    report: ReportV,
    rule: MatchRule,
    f: Seq<char>,
)
    requires
        ({
            ||| rule.field@ == "driver_id"@ && driver_id == f
            ||| rule.field@ == "probe.vendor"@ && report.vendor == Some(f)
            ||| rule.field@ == "probe.family"@ && report.family == Some(f)
            ||| rule.field@ == "probe.model"@ && report.model == Some(f)
            ||| rule.field@ == "probe.firmware"@ && report.firmware == Some(f)
        }),
    ensures
        rule.op@ == "eq"@ ==> (rule_holds(driver_id, report, rule) <==> rule.value@
            == JsonV::String(f)),
        rule.op@ == "in"@ ==> (rule_holds(driver_id, report, rule) <==> (rule.value@ is Array
            && rule.value@->Array_0.contains(JsonV::String(f)))),
        rule.op@ == "prefix"@ ==> (rule_holds(driver_id, report, rule) <==> (rule.value@ is String
            && rule.value@->String_0.len() <= f.len() && f.subrange(
            0,
            rule.value@->String_0.len() as int,
        ) == rule.value@->String_0)),
        rule.op@ != "eq"@ && rule.op@ != "in"@ && rule.op@ != "prefix"@ ==> !rule_holds(
            driver_id,
            report,
            rule,
        ),
{
    reveal_strlit("driver_id");
    reveal_strlit("probe.vendor");
    reveal_strlit("probe.family");
    reveal_strlit("probe.model");
    reveal_strlit("probe.firmware");
    assert("driver_id"@.len() == 9);
    assert("probe.model"@.len() == 11);
    assert("probe.firmware"@.len() == 14);
    assert("probe.vendor"@.len() == 12);
    assert("probe.family"@.len() == 12);
    assert("probe.vendor"@[6] == 'v');
    assert("probe.family"@[6] == 'f');
    reveal_strlit("eq");
    reveal_strlit("in");
    reveal_strlit("prefix");
    assert("prefix"@.len() == 6);
    assert("eq"@.len() == 2);
    assert("in"@.len() == 2);
    assert("eq"@[0] == 'e');
    assert("in"@[0] == 'i');
    if rule.value@ is Array {
        let a = rule.value@->Array_0;
        assert(items_hold(a, f) <==> a.contains(JsonV::String(f)));
    }
    if rule.value@ is String {
        let p = rule.value@->String_0;
        if p.len() <= f.len() {
            assert(p.is_prefix_of(f) <==> p =~= f.subrange(0, p.len() as int));
        }
    }
}

/// What the probe did not find out is as no rule wants it, whatever the rule.
pub proof fn rules_on_what_is_not_known_do_not_hold(
    driver_id: Seq<char>,
    report: ReportV,
    rule: MatchRule,
)
    ensures
        rule.field@ == "probe.vendor"@ && report.vendor is None ==> !rule_holds(
            driver_id,
            report,
            rule,
        ),
        rule.field@ == "probe.family"@ && report.family is None ==> !rule_holds(
            driver_id,
            report,
            rule,
        ),
        rule.field@ == "probe.model"@ && report.model is None ==> !rule_holds(
            driver_id,
            report,
            rule,
        ),
        rule.field@ == "probe.firmware"@ && report.firmware is None ==> !rule_holds(
            driver_id,
            report,
            rule,
        ),
{
    reveal_strlit("driver_id");
    reveal_strlit("probe.vendor");
    reveal_strlit("probe.family");
    reveal_strlit("probe.model");
    reveal_strlit("probe.firmware");
    assert("driver_id"@.len() == 9);
    assert("probe.model"@.len() == 11);
    assert("probe.firmware"@.len() == 14);
    assert("probe.vendor"@.len() == 12);
    assert("probe.family"@.len() == 12);
    assert("probe.vendor"@[6] == 'v');
    assert("probe.family"@[6] == 'f');
}

/// A profile is among the results exactly where each of its rules holds.
pub proof fn profiles_match_when_all_rules_hold(
    driver_id: Seq<char>,
    report: ReportV,
    p: DeviceProfile,
)
    ensures
        (forall|i: int|
            0 <= i < p.match_rules@.len() ==> rule_holds(
                driver_id,
                report,
                #[trigger] p.match_rules@[i],
            )) ==> hits(driver_id, report, seq![p]) == seq![
            (specificity(p.match_rules@), p.id@),
        ],
        (exists|i: int|
            0 <= i < p.match_rules@.len() && !rule_holds(
                driver_id,
                report,
                #[trigger] p.match_rules@[i],
            )) ==> hits(driver_id, report, seq![p]) == Seq::<Hit>::empty(),
{
    assert(seq![p].drop_last() =~= Seq::<DeviceProfile>::empty());
    assert(hits(driver_id, report, Seq::<DeviceProfile>::empty()) =~= Seq::<Hit>::empty());
    assert(Seq::<Hit>::empty().push((specificity(p.match_rules@), p.id@)) =~= seq![
        (specificity(p.match_rules@), p.id@),
    ]);
}

/// The profiles that fit some given ones and some more are those that fit of the first and
/// those that fit of the others.
pub proof fn profiles_are_held_against_the_device_one_by_one(
    driver_id: Seq<char>,
    report: ReportV,
    a: Seq<DeviceProfile>,
    p: DeviceProfile,
)
    ensures
        hits(driver_id, report, Seq::empty()).len() == 0,
        hits(driver_id, report, a.push(p)) == hits(driver_id, report, a) + hits(
            driver_id,
            report,
            seq![p],
        ),
{
    assert(a.push(p).drop_last() =~= a);
    assert(seq![p].drop_last() =~= Seq::<DeviceProfile>::empty());
    let h = hits(driver_id, report, a);
    assert(hits(driver_id, report, Seq::<DeviceProfile>::empty()) =~= Seq::<Hit>::empty());
    let x = (specificity(p.match_rules@), p.id@);
    assert(h.push(x) =~= h + Seq::<Hit>::empty().push(x));
    assert(h =~= h + Seq::<Hit>::empty());
}

/// A rule on the model counts four, on the family or the firmware three, on the vendor two, on the
/// driver one; what rules count is added up.
pub proof fn rules_count_by_their_field(rules: Seq<MatchRule>, r: MatchRule)
    ensures
        specificity(Seq::empty()) == 0,
        r.field@ == "probe.model"@ ==> specificity(rules.push(r)) == specificity(rules) + 4,
        r.field@ == "probe.family"@ ==> specificity(rules.push(r)) == specificity(rules) + 3,
        r.field@ == "probe.firmware"@ ==> specificity(rules.push(r)) == specificity(rules) + 3,
        r.field@ == "probe.vendor"@ ==> specificity(rules.push(r)) == specificity(rules) + 2,
        r.field@ == "driver_id"@ ==> specificity(rules.push(r)) == specificity(rules) + 1,
        r.field@ != "driver_id"@ && r.field@ != "probe.vendor"@ && r.field@ != "probe.family"@
            && r.field@ != "probe.model"@ && r.field@ != "probe.firmware"@ ==> specificity(
            rules.push(r),
        ) == specificity(rules),
{
    reveal_strlit("driver_id");
    reveal_strlit("probe.vendor");
    reveal_strlit("probe.family");
    reveal_strlit("probe.model");
    reveal_strlit("probe.firmware");
    assert("driver_id"@.len() == 9);
    assert("probe.model"@.len() == 11);
    assert("probe.firmware"@.len() == 14);
    assert("probe.vendor"@.len() == 12);
    assert("probe.family"@.len() == 12);
    assert("probe.vendor"@[6] == 'v');
    assert("probe.family"@[6] == 'f');
    assert(rules.push(r).drop_last() =~= rules);
}

proof fn lemma_rules_defect(rules: Seq<MatchRule>, i: int)
    requires
        0 <= i <= rules.len(),
    ensures
        rules_defect(rules, i) is None <==> forall|j: int|
            i <= j < rules.len() ==> known_field((#[trigger] rules[j]).field@) && known_op(
                rules[j].op@,
            ),
    decreases rules.len() - i,
{
    if i < rules.len() {
        lemma_rules_defect(rules, i + 1);
    }
}

/// Whether the selections of a preset each name a resource, and their outputs each a key.
pub open spec fn preset_is_whole(p: Preset) -> bool {
    forall|j: int|
        0 <= j < p.selections@.len() ==> !blank((#[trigger] p.selections@[j]).resource_id@) && forall|
            k: int,
        |
            0 <= k < p.selections@[j].outputs@.len() ==> !blank(
                (#[trigger] p.selections@[j].outputs@[k]).point_key@,
            )
}

proof fn lemma_preset_selections(id: Seq<char>, s: Seq<ResourceSelection>, i: int)
    requires
        0 <= i <= s.len(),
    ensures
        preset_selections_defect(id, s, i) is None <==> forall|j: int|
            i <= j < s.len() ==> !blank((#[trigger] s[j]).resource_id@) && !has_blank_key(
                s[j].outputs@,
            ),
    decreases s.len() - i,
{
    if i < s.len() {
        lemma_preset_selections(id, s, i + 1);
    }
}

proof fn lemma_preset_whole(p: Preset)
    ensures
        preset_selections_defect(p.id@, p.selections@, 0) is None <==> preset_is_whole(p),
{
    lemma_preset_selections(p.id@, p.selections@, 0);
    assert forall|j: int| 0 <= j < p.selections@.len() implies (!has_blank_key(
        (#[trigger] p.selections@[j]).outputs@,
    ) <==> forall|k: int|
        0 <= k < p.selections@[j].outputs@.len() ==> !blank(
            (#[trigger] p.selections@[j].outputs@[k]).point_key@,
        )) by {}
    if preset_is_whole(p) {
        assert forall|j: int| 0 <= j < p.selections@.len() implies !blank(
            (#[trigger] p.selections@[j]).resource_id@,
        ) && !has_blank_key(p.selections@[j].outputs@) by {}
    }
}

/// Whether a preset has an id of its own among those before it.
pub open spec fn preset_is_new(presets: Seq<Preset>, j: int) -> bool {
    !blank(presets[j].id@) && forall|k: int| 0 <= k < j ==> (#[trigger] presets[k]).id@
        != presets[j].id@
}

proof fn lemma_presets_defect(presets: Seq<Preset>, i: int)
    requires
        0 <= i <= presets.len(),
    ensures
        presets_defect(presets, i) is None <==> forall|j: int|
            i <= j < presets.len() ==> #[trigger] preset_is_new(presets, j) && preset_is_whole(
                presets[j],
            ),
    decreases presets.len() - i,
{
    if i < presets.len() {
        lemma_presets_defect(presets, i + 1);
        lemma_preset_whole(presets[i]);
        let part = presets.subrange(0, i);
        assert(has_preset(part, presets[i].id@) <==> exists|k: int|
            0 <= k < i && (#[trigger] presets[k]).id@ == presets[i].id@) by {
            if has_preset(part, presets[i].id@) {
                let k = choose|k: int|
                    0 <= k < part.len() && (#[trigger] part[k]).id@ == presets[i].id@;
                assert(presets[k].id@ == presets[i].id@);
            }
            if exists|k: int| 0 <= k < i && (#[trigger] presets[k]).id@ == presets[i].id@ {
                let k = choose|k: int|
                    0 <= k < i && (#[trigger] presets[k]).id@ == presets[i].id@;
                assert(part[k].id@ == presets[i].id@);
            }
        }
        assert(preset_is_new(presets, i) <==> !blank(presets[i].id@) && !has_preset(
            part,
            presets[i].id@,
        ));
        if presets_defect(presets, i) is None {
            assert forall|j: int| i <= j < presets.len() implies #[trigger] preset_is_new(
                presets,
                j,
            ) && preset_is_whole(presets[j]) by {
                if j > i {
                    assert(preset_is_new(presets, j));
                }
            }
        }
        if forall|j: int|
            i <= j < presets.len() ==> #[trigger] preset_is_new(presets, j) && preset_is_whole(
                presets[j],
            ) {
            assert(preset_is_new(presets, i));
            assert(preset_selections_defect(presets[i].id@, presets[i].selections@, 0) is None);
        }
    }
}

/// Whether a rule asks for one of the five facts by one of the three comparisons.
pub open spec fn rule_makes_sense(r: MatchRule) -> bool {
    &&& r.field@ == "driver_id"@ || r.field@ == "probe.vendor"@ || r.field@ == "probe.family"@
        || r.field@ == "probe.model"@ || r.field@ == "probe.firmware"@
    &&& r.op@ == "eq"@ || r.op@ == "in"@ || r.op@ == "prefix"@
}

/// A profile makes sense exactly where it has an id and a driver, its rules ask for one of the
/// five facts by one of the three comparisons, and its presets have ids of their own and are whole.
pub proof fn profiles_make_sense_when_their_parts_do(p: DeviceProfile)
    ensures
        profile_defect(p) is None <==> (!blank(p.id@) && !blank(p.driver_id@) && (forall|j: int|
            0 <= j < p.match_rules@.len() ==> rule_makes_sense(#[trigger] p.match_rules@[j])) && (
        forall|j: int|
            0 <= j < p.presets@.len() ==> #[trigger] preset_is_new(p.presets@, j)
                && preset_is_whole(p.presets@[j]))),
{
    lemma_rules_defect(p.match_rules@, 0);
    lemma_presets_defect(p.presets@, 0);
    assert(forall|r: MatchRule| #[trigger]
        rule_makes_sense(r) <==> known_field(r.field@) && known_op(r.op@));
    let rules = forall|j: int|
        0 <= j < p.match_rules@.len() ==> rule_makes_sense(#[trigger] p.match_rules@[j]);
    let presets = forall|j: int|
        0 <= j < p.presets@.len() ==> #[trigger] preset_is_new(p.presets@, j) && preset_is_whole(
            p.presets@[j],
        );
    assert(rules <==> rules_defect(p.match_rules@, 0) is None) by {
        if rules {
            assert forall|j: int| 0 <= j < p.match_rules@.len() implies known_field(
                (#[trigger] p.match_rules@[j]).field@,
            ) && known_op(p.match_rules@[j].op@) by {}
        }
    }
    assert(presets <==> presets_defect(p.presets@, 0) is None);
}

/// A profile is loaded exactly where it can be read and makes sense.
pub proof fn profiles_are_loaded_when_they_make_sense(
    found: Seq<Result<DeviceProfile, String>>,
    p: DeviceProfile,
    e: String,
)
    ensures
        sound_profiles(found, 0).len() == 0,
        profile_defect(p) is None ==> sound_profiles(
            found.push(Ok(p)),
            found.len() as int + 1,
        ) == sound_profiles(found, found.len() as int).push(p),
        profile_defect(p) is Some ==> sound_profiles(found.push(Ok(p)), found.len() as int + 1)
            == sound_profiles(found, found.len() as int),
        sound_profiles(found.push(Err(e)), found.len() as int + 1) == sound_profiles(
            found,
            found.len() as int,
        ),
{
    lemma_sound_prefix(found, found.push(Ok(p)), found.len() as int);
    lemma_sound_prefix(found, found.push(Err(e)), found.len() as int);
}

proof fn lemma_sound_prefix(
    a: Seq<Result<DeviceProfile, String>>,
    b: Seq<Result<DeviceProfile, String>>,
    n: int,
)
    requires
        0 <= n <= a.len() <= b.len(),
        forall|i: int| 0 <= i < a.len() ==> a[i] == b[i],
    ensures
        sound_profiles(a, n) == sound_profiles(b, n),
    decreases n,
{
    if n > 0 {
        lemma_sound_prefix(a, b, n - 1);
    }
}

/// Of two profiles that fit, the one whose rules say more stands before the other; where they say
/// as much, the one with the smaller id.
pub proof fn what_says_more_comes_first(a: Hit, b: Hit)
    ensures
        a.0 > b.0 ==> hits_sorted(seq![a, b]) == seq![a, b] && hits_sorted(seq![b, a]) == seq![a, b],
        a.0 == b.0 && text_before(a.1, b.1) ==> hits_sorted(seq![a, b]) == seq![a, b],
{
    reveal_with_fuel(hits_sorted, 3);
    reveal_with_fuel(hit_inserted, 3);
    assert(seq![a, b].drop_last() =~= seq![a]);
    assert(seq![b, a].drop_last() =~= seq![b]);
    assert(seq![a].drop_last() =~= Seq::<Hit>::empty());
    assert(seq![b].drop_last() =~= Seq::<Hit>::empty());
    assert(Seq::<Hit>::empty().push(a) =~= seq![a]);
    assert(Seq::<Hit>::empty().push(b) =~= seq![b]);
    assert(seq![a].push(b) =~= seq![a, b]);
    assert(seq![b].push(a) =~= seq![b, a]);
}

} // verus!
