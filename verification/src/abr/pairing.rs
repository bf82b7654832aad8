//! Which preset belongs to which sampled tip.
//!
//! A preset names its tip by uuid. Where at least one preset names a tip of the file, each
//! preset that does becomes a brush, and tips that none names are dropped: they are the
//! second tips of dual brushes. Where none does, each tip becomes a brush, in reverse
//! order, with the preset of the same place in the list.
use vstd::prelude::*;
use crate::abr::preset::BrushDescInfo;
use crate::abr::samp::{DeferredTip, SampEntry, SampView};
use crate::abr::types::{
    AbrBrush, BrushDescriptor, BrushView, ComputedPreset, ComputedPresetView, DroppedTipDetail,
    DroppedTipView, SkippedPresetDetail, SkippedPresetView, UnsupportedTipPresetDetail,
    UnsupportedTipView,
};
use crate::support::text::{copy_text, decimal, push_decimal, text, views, with_number};

verus! {

/// The model of a preset.
pub type Info = BrushDescInfo<Seq<char>>;

/// The last of the first `n` tips with this uuid.
pub open spec fn tip_named(samps: Seq<SampView>, n: nat, uuid: Seq<char>) -> Option<nat>
    decreases n,
{
    if n == 0 {
        None
    } else if samps[n - 1].uuid == Some(uuid) {
        Some((n - 1) as nat)
    } else {
        tip_named(samps, (n - 1) as nat, uuid)
    }
}

/// The tip that a preset names.
pub open spec fn resolve(samps: Seq<SampView>, info: Info) -> Option<nat> {
    match info.sampled_data_uuid {
        Some(uuid) => tip_named(samps, samps.len(), uuid),
        None => None,
    }
}

/// The number of the first `n` presets that name this uuid.
pub open spec fn uses(infos: Seq<Info>, n: nat, uuid: Seq<char>) -> nat
    decreases n,
{
    if n == 0 {
        0
    } else {
        uses(infos, (n - 1) as nat, uuid) + if infos[n - 1].sampled_data_uuid == Some(uuid) {
            1nat
        } else {
            0nat
        }
    }
}

/// Those of the first `n` presets that name a tip of the file.
pub open spec fn resolved(samps: Seq<SampView>, infos: Seq<Info>, n: nat) -> Seq<nat>
    decreases n,
{
    if n == 0 {
        seq![]
    } else if resolve(samps, infos[n - 1]) is Some {
        resolved(samps, infos, (n - 1) as nat).push((n - 1) as nat)
    } else {
        resolved(samps, infos, (n - 1) as nat)
    }
}

/// Those of the first `n` presets that name a tip that the file does not hold.
pub open spec fn dangling(samps: Seq<SampView>, infos: Seq<Info>, n: nat) -> Seq<nat>
    decreases n,
{
    if n == 0 {
        seq![]
    } else if infos[n - 1].sampled_data_uuid is Some && resolve(samps, infos[n - 1]) is None {
        dangling(samps, infos, (n - 1) as nat).push((n - 1) as nat)
    } else {
        dangling(samps, infos, (n - 1) as nat)
    }
}

/// Does one of the first `n` presets name tip `k`?
pub open spec fn is_used(samps: Seq<SampView>, infos: Seq<Info>, n: nat, k: nat) -> bool {
    exists|i: int| 0 <= i < n && #[trigger] resolve(samps, infos[i]) == Some(k)
}

/// Those of the first `n` tips that no preset names.
pub open spec fn unused(samps: Seq<SampView>, infos: Seq<Info>, n: nat) -> Seq<nat>
    decreases n,
{
    if n == 0 {
        seq![]
    } else if !is_used(samps, infos, infos.len(), (n - 1) as nat) {
        unused(samps, infos, (n - 1) as nat).push((n - 1) as nat)
    } else {
        unused(samps, infos, (n - 1) as nat)
    }
}

/// The names of those of the first `n` presets whose dual brush uses this uuid, each once.
pub open spec fn owners(infos: Seq<Info>, n: nat, uuid: Seq<char>) -> Seq<Seq<char>>
    decreases n,
{
    if n == 0 {
        seq![]
    } else {
        let before = owners(infos, (n - 1) as nat, uuid);
        if infos[n - 1].dual_brush_uuid == Some(uuid) && !before.contains(infos[n - 1].name) {
            before.push(infos[n - 1].name)
        } else {
            before
        }
    }
}

/// The id of the `count`-th brush with this uuid.
pub open spec fn numbered_id(uuid: Seq<char>, count: nat) -> Seq<char> {
    if count == 1 {
        uuid
    } else {
        uuid + "-"@ + decimal(count)
    }
}

/// The brush of preset `i`, which names a tip of the file.
pub open spec fn preset_brush(samps: Seq<SampView>, infos: Seq<Info>, i: nat) -> BrushView {
    let info = infos[i as int];
    let uuid = info.sampled_data_uuid->0;
    BrushView {
        id: numbered_id(uuid, uses(infos, i + 1, uuid)),
        name: info.name,
        tip: samps[resolve(samps, info)->0 as int].bitmap,
        descriptor: info.descriptor,
        synthesized: false,
        preset_index: Some(i as usize),
    }
}

/// Where the pixels of the brush of preset `i` stand, if they are deferred.
pub open spec fn preset_deferred(samps: Seq<SampView>, infos: Seq<Info>, i: nat) -> Option<
    DeferredTip,
> {
    samps[resolve(samps, infos[i as int])->0 as int].deferred
}

/// A tip that no preset names.
pub open spec fn dropped_tip(samps: Seq<SampView>, infos: Seq<Info>, k: nat) -> DroppedTipView {
    let samp = samps[k as int];
    DroppedTipView {
        uuid: samp.uuid,
        width: samp.bitmap.width,
        height: samp.bitmap.height,
        owner_preset_names: match samp.uuid {
            Some(uuid) => owners(infos, infos.len(), uuid),
            None => seq![],
        },
        bitmap: samp.bitmap,
    }
}

/// A preset that names a tip that the file does not hold.
pub open spec fn skipped_preset(infos: Seq<Info>, i: nat) -> SkippedPresetView {
    SkippedPresetView {
        name: infos[i as int].name,
        uuid: infos[i as int].sampled_data_uuid->0,
    }
}

/// The brush of tip `i` where no preset names a tip of the file.
pub open spec fn tip_brush(samps: Seq<SampView>, infos: Seq<Info>, i: int) -> BrushView {
    BrushView {
        id: match samps[i].uuid {
            Some(uuid) => uuid,
            None => "brush_"@ + decimal(i as nat),
        },
        name: if i < infos.len() {
            infos[i].name
        } else {
            seq![]
        },
        tip: samps[i].bitmap,
        descriptor: if i < infos.len() {
            infos[i].descriptor
        } else {
            BrushDescriptor::empty()
        },
        synthesized: false,
        preset_index: if i < infos.len() {
            Some(i as usize)
        } else {
            None
        },
    }
}

/// The model of [`PairedBrushes`].
pub struct PairedView {
    pub brushes: Seq<BrushView>,
    pub tips: Seq<Option<DeferredTip>>,
    pub dropped: Seq<DroppedTipView>,
    pub dropped_tips: Seq<Option<DeferredTip>>,
    pub skipped: Seq<SkippedPresetView>,
}

/// Does a preset name a tip of the file?
pub open spec fn presets_first(samps: Seq<SampView>, infos: Seq<Info>) -> bool {
    resolved(samps, infos, infos.len()).len() > 0
}

/// The pairing of tips and presets.
pub open spec fn paired(samps: Seq<SampView>, infos: Seq<Info>) -> PairedView {
    if presets_first(samps, infos) {
        PairedView {
            brushes: resolved(samps, infos, infos.len()).map_values(
                |i: nat| preset_brush(samps, infos, i),
            ),
            tips: resolved(samps, infos, infos.len()).map_values(
                |i: nat| preset_deferred(samps, infos, i),
            ),
            dropped: unused(samps, infos, samps.len()).map_values(
                |k: nat| dropped_tip(samps, infos, k),
            ),
            dropped_tips: unused(samps, infos, samps.len()).map_values(
                |k: nat| samps[k as int].deferred,
            ),
            skipped: dangling(samps, infos, infos.len()).map_values(
                |i: nat| skipped_preset(infos, i),
            ),
        }
    } else {
        PairedView {
            brushes: Seq::new(samps.len(), |j: int| tip_brush(samps, infos, samps.len() - 1 - j)),
            tips: Seq::new(samps.len(), |j: int| samps[samps.len() - 1 - j].deferred),
            dropped: seq![],
            dropped_tips: seq![],
            skipped: seq![],
        }
    }
}

/// The brushes of a pack, and what became of the tips and presets that are in none.
#[derive(Debug)]
pub struct PairedBrushes {
    pub brushes: Vec<AbrBrush>,
    pub dropped_samp_count: usize,
    pub skipped_preset_count: usize,
    pub dropped_tip_details: Vec<DroppedTipDetail>,
    pub skipped_preset_details: Vec<SkippedPresetDetail>,
    /// Where the pixels of each brush stand, if they are deferred.
    pub tips: Vec<Option<DeferredTip>>,
    /// Where the pixels of each dropped tip stand, if they are deferred.
    pub dropped_tips: Vec<Option<DeferredTip>>,
}

impl View for PairedBrushes {
    type V = PairedView;

    open spec fn view(&self) -> PairedView {
        PairedView {
            brushes: views(self.brushes@),
            tips: self.tips@,
            dropped: views(self.dropped_tip_details@),
            dropped_tips: self.dropped_tips@,
            skipped: views(self.skipped_preset_details@),
        }
    }
}

/// Is this uuid `other`?
fn names(uuid: &Option<String>, other: &String) -> (r: bool)
    ensures
        r == (text(*uuid) == Some(other@)),
{
    match uuid {
        Some(u) => *u == *other,
        None => false,
    }
}

fn find_tip(samps: &Vec<SampEntry>, uuid: &String) -> (r: Option<usize>)
    ensures
        match tip_named(views(samps@), samps@.len(), uuid@) {
            Some(k) => r matches Some(i) && i as nat == k && i < samps@.len(),
            None => r is None,
        },
{
    let mut n: usize = samps.len();
    while n > 0
        invariant
            n <= samps@.len(),
            tip_named(views(samps@), samps@.len(), uuid@) == tip_named(
                views(samps@),
                n as nat,
                uuid@,
            ),
        decreases n,
    {
        assert(views(samps@)[n - 1] == samps@[n - 1]@);
        if names(&samps[n - 1].uuid, uuid) {
            return Some(n - 1);
        }
        n -= 1;
    }
    None
}

/// A tip that is found by its uuid has that uuid.
pub proof fn tip_named_is_named(samps: Seq<SampView>, n: nat, uuid: Seq<char>)
    requires
        n <= samps.len(),
    ensures
        tip_named(samps, n, uuid) matches Some(k) ==> k < n && samps[k as int].uuid == Some(uuid),
    decreases n,
{
    if n > 0 && samps[n - 1].uuid != Some(uuid) {
        tip_named_is_named(samps, (n - 1) as nat, uuid);
    }
}

proof fn uses_is_bounded(infos: Seq<Info>, n: nat, uuid: Seq<char>)
    ensures
        uses(infos, n, uuid) <= n,
    decreases n,
{
    if n > 0 {
        uses_is_bounded(infos, (n - 1) as nat, uuid);
    }
}

/// The presets that name tips of the file do, and stand in the order of the list.
pub proof fn resolved_are_resolved(samps: Seq<SampView>, infos: Seq<Info>, n: nat)
    ensures
        forall|k: int|
            0 <= k < resolved(samps, infos, n).len() ==> (#[trigger] resolved(samps, infos, n)[k])
                < n && resolve(samps, infos[resolved(samps, infos, n)[k] as int]) is Some,
    decreases n,
{
    if n > 0 {
        resolved_are_resolved(samps, infos, (n - 1) as nat);
        let before = resolved(samps, infos, (n - 1) as nat);
        let all = resolved(samps, infos, n);
        assert forall|k: int| 0 <= k < all.len() implies (#[trigger] all[k]) < n && resolve(
            samps,
            infos[all[k] as int],
        ) is Some by {
            if k < before.len() {
                assert(all[k] == before[k]);
            }
        }
    }
}

/// The tips that no preset names are tips of the file.
pub proof fn unused_are_tips(samps: Seq<SampView>, infos: Seq<Info>, n: nat)
    ensures
        forall|k: int|
            0 <= k < unused(samps, infos, n).len() ==> (#[trigger] unused(samps, infos, n)[k]) < n,
    decreases n,
{
    if n > 0 {
        unused_are_tips(samps, infos, (n - 1) as nat);
        let before = unused(samps, infos, (n - 1) as nat);
        let all = unused(samps, infos, n);
        assert forall|k: int| 0 <= k < all.len() implies (#[trigger] all[k]) < n by {
            if k < before.len() {
                assert(all[k] == before[k]);
            }
        }
    }
}

/// What each tip is counted for after the first `n` presets: the number of those that name
/// it.
spec fn counted(samps: Seq<SampView>, infos: Seq<Info>, n: nat, counts: Seq<usize>) -> bool {
    &&& counts.len() == samps.len()
    &&& forall|uuid: Seq<char>| #[trigger]
        tip_named(samps, samps.len(), uuid) matches Some(k) ==> counts[k as int] == uses(
            infos,
            n,
            uuid,
        )
    &&& forall|k: int| 0 <= k < counts.len() ==> (#[trigger] counts[k] > 0) == is_used(
        samps,
        infos,
        n,
        k as nat,
    )
}

proof fn count_one(samps: Seq<SampView>, infos: Seq<Info>, n: nat, counts: Seq<usize>, k: nat)
    requires
        counted(samps, infos, n, counts),
        n < infos.len(),
        infos.len() <= usize::MAX,
        resolve(samps, infos[n as int]) == Some(k),
    ensures
        k < counts.len(),
        counts[k as int] < usize::MAX,
        uses(infos, n + 1, infos[n as int].sampled_data_uuid->0) == counts[k as int] + 1,
        counted(
            samps,
            infos,
            n + 1,
            counts.update(k as int, (counts[k as int] + 1) as usize),
        ),
{
    let uuid = infos[n as int].sampled_data_uuid->0;
    tip_named_is_named(samps, samps.len(), uuid);
    uses_is_bounded(infos, n, uuid);
    let next = counts.update(k as int, (counts[k as int] + 1) as usize);
    assert forall|u: Seq<char>| #[trigger]
        tip_named(samps, samps.len(), u) is Some implies next[tip_named(samps, samps.len(), u)->0 as int] == uses(
        infos,
        n + 1,
        u,
    ) by {
        tip_named_is_named(samps, samps.len(), u);
    }
    assert forall|j: int| 0 <= j < next.len() implies (#[trigger] next[j] > 0) == is_used(
        samps,
        infos,
        n + 1,
        j as nat,
    ) by {
        if j == k {
            assert(resolve(samps, infos[n as int]) == Some(j as nat));
        } else {
            assert(counts[j] == next[j]);
            if is_used(samps, infos, n + 1, j as nat) {
                let i = choose|i: int|
                    0 <= i < n + 1 && #[trigger] resolve(samps, infos[i]) == Some(j as nat);
                assert(i != n);
                assert(is_used(samps, infos, n, j as nat));
            }
            if is_used(samps, infos, n, j as nat) {
                let i = choose|i: int|
                    0 <= i < n && #[trigger] resolve(samps, infos[i]) == Some(j as nat);
                assert(is_used(samps, infos, n + 1, j as nat));
            }
        }
    }
}

proof fn count_none(samps: Seq<SampView>, infos: Seq<Info>, n: nat, counts: Seq<usize>)
    requires
        counted(samps, infos, n, counts),
        n < infos.len(),
        resolve(samps, infos[n as int]) is None,
    ensures
        counted(samps, infos, n + 1, counts),
{
    assert forall|u: Seq<char>| #[trigger]
        tip_named(samps, samps.len(), u) is Some implies counts[tip_named(samps, samps.len(), u)->0 as int] == uses(
        infos,
        n + 1,
        u,
    ) by {
        assert(infos[n as int].sampled_data_uuid != Some(u));
    }
    assert forall|j: int| 0 <= j < counts.len() implies (#[trigger] counts[j] > 0) == is_used(
        samps,
        infos,
        n + 1,
        j as nat,
    ) by {
        if is_used(samps, infos, n + 1, j as nat) {
            let i = choose|i: int|
                0 <= i < n + 1 && #[trigger] resolve(samps, infos[i]) == Some(j as nat);
            assert(i != n);
            assert(is_used(samps, infos, n, j as nat));
        }
        if is_used(samps, infos, n, j as nat) {
            let i = choose|i: int|
                0 <= i < n && #[trigger] resolve(samps, infos[i]) == Some(j as nat);
            assert(is_used(samps, infos, n + 1, j as nat));
        }
    }
}

fn brush_id(uuid: &String, count: usize) -> (r: String)
    ensures
        r@ == numbered_id(uuid@, count as nat),
{
    if count == 1 {
        uuid.clone()
    } else {
        let mut id: String = uuid.clone();
        id.append("-");
        push_decimal(&mut id, count as u64);
        id
    }
}

fn owner_names(infos: &Vec<BrushDescInfo>, uuid: &Option<String>) -> (r: Vec<String>)
    ensures
        views(r@) == (match text(*uuid) {
            Some(u) => owners(views(infos@), infos@.len(), u),
            None => seq![],
        }),
{
    let mut r: Vec<String> = Vec::new();
    assert(views(r@) =~= seq![]);
    let uuid: &String = match uuid {
        Some(u) => u,
        None => {
            return r;
        },
    };
    let mut i: usize = 0;
    while i < infos.len()
        invariant
            i <= infos@.len(),
            views(r@) == owners(views(infos@), i as nat, uuid@),
        decreases infos@.len() - i,
    {
        assert(views(infos@)[i as int] == infos@[i as int]@);
        if names(&infos[i].dual_brush_uuid, uuid) && !contains_text(&r, &infos[i].name) {
            let ghost before = r@;
            let name: String = infos[i].name.clone();
            r.push(name);
            assert(views(r@) =~= views(before).push(name@));
        }
        i += 1;
    }
    r
}

fn contains_text(list: &Vec<String>, s: &String) -> (r: bool)
    ensures
        r == views(list@).contains(s@),
{
    let mut i: usize = 0;
    while i < list.len()
        invariant
            i <= list@.len(),
            forall|j: int| 0 <= j < i ==> views(list@)[j] != s@,
        decreases list@.len() - i,
    {
        assert(views(list@)[i as int] == list@[i as int]@);
        if list[i] == *s {
            return true;
        }
        i += 1;
    }
    false
}

/// The brushes of the presets that name tips, their deferred tips, the presets that name
/// no tip of the file, and how many presets name each tip.
struct PresetPairs {
    brushes: Vec<AbrBrush>,
    tips: Vec<Option<DeferredTip>>,
    skipped: Vec<SkippedPresetDetail>,
    counts: Vec<usize>,
}

fn pair_presets(samps: &Vec<SampEntry>, infos: &Vec<BrushDescInfo>) -> (r: PresetPairs)
    ensures
        ({
            let s = views(samps@);
            let f = views(infos@);
            &&& views(r.brushes@) == resolved(s, f, f.len()).map_values(
                |i: nat| preset_brush(s, f, i),
            )
            &&& r.tips@ == resolved(s, f, f.len()).map_values(|i: nat| preset_deferred(s, f, i))
            &&& views(r.skipped@) == dangling(s, f, f.len()).map_values(
                |i: nat| skipped_preset(f, i),
            )
            &&& counted(s, f, f.len(), r.counts@)
        }),
{
    let ghost s = views(samps@);
    let ghost f = views(infos@);
    let ghost to_brush = |i: nat| preset_brush(s, f, i);
    let ghost to_tip = |i: nat| preset_deferred(s, f, i);
    let ghost to_skipped = |i: nat| skipped_preset(f, i);
    let mut brushes: Vec<AbrBrush> = Vec::new();
    let mut tips: Vec<Option<DeferredTip>> = Vec::new();
    let mut skipped: Vec<SkippedPresetDetail> = Vec::new();
    let mut counts: Vec<usize> = Vec::new();
    let mut k: usize = 0;
    while k < samps.len()
        invariant
            k <= samps@.len(),
            counts@.len() == k,
            forall|j: int| 0 <= j < k ==> counts@[j] == 0,
        decreases samps@.len() - k,
    {
        counts.push(0);
        k += 1;
    }
    proof {
        assert forall|u: Seq<char>| #[trigger]
            tip_named(s, s.len(), u) is Some implies counts@[tip_named(s, s.len(), u)->0 as int] == uses(f, 0, u) by {
            tip_named_is_named(s, s.len(), u);
        }
        assert(views(brushes@) =~= resolved(s, f, 0).map_values(to_brush));
        assert(tips@ =~= resolved(s, f, 0).map_values(to_tip));
        assert(views(skipped@) =~= dangling(s, f, 0).map_values(to_skipped));
    }
    assert(infos.len() <= usize::MAX);
    let mut i: usize = 0;
    while i < infos.len()
        invariant
            i <= infos@.len(),
            infos@.len() <= usize::MAX,
            s == views(samps@),
            f == views(infos@),
            to_brush == (|i: nat| preset_brush(s, f, i)),
            to_tip == (|i: nat| preset_deferred(s, f, i)),
            to_skipped == (|i: nat| skipped_preset(f, i)),
            views(brushes@) == resolved(s, f, i as nat).map_values(to_brush),
            tips@ == resolved(s, f, i as nat).map_values(to_tip),
            views(skipped@) == dangling(s, f, i as nat).map_values(to_skipped),
            counted(s, f, i as nat, counts@),
        decreases infos@.len() - i,
    {
        let info: &BrushDescInfo = &infos[i];
        let ghost brushes_before = brushes@;
        let ghost tips_before = tips@;
        let ghost skipped_before = skipped@;
        assert(f[i as int] == info@);
        match &info.sampled_data_uuid {
            Some(uuid) => {
                match find_tip(samps, uuid) {
                    Some(k) => {
                        proof {
                            count_one(s, f, i as nat, counts@, k as nat);
                        }
                        let count: usize = counts[k] + 1;
                        counts[k] = count;
                        assert(s[k as int] == samps@[k as int]@);
                        let brush: AbrBrush = AbrBrush {
                            id: brush_id(uuid, count),
                            name: info.name.clone(),
                            tip: samps[k].bitmap.duplicate(),
                            descriptor: info.descriptor.duplicate(),
                            synthesized: false,
                            preset_index: Some(i),
                        };
                        brushes.push(brush);
                        tips.push(samps[k].deferred);
                        proof {
                            assert(brush@ == preset_brush(s, f, i as nat));
                            assert(views(brushes@) =~= views(brushes_before).push(brush@));
                            assert(resolved(s, f, (i + 1) as nat).map_values(to_brush)
                                =~= resolved(s, f, i as nat).map_values(to_brush).push(brush@));
                            assert(resolved(s, f, (i + 1) as nat).map_values(to_tip) =~= resolved(
                                s,
                                f,
                                i as nat,
                            ).map_values(to_tip).push(samps@[k as int].deferred));
                        }
                    },
                    None => {
                        proof {
                            count_none(s, f, i as nat, counts@);
                        }
                        let detail: SkippedPresetDetail = SkippedPresetDetail {
                            name: info.name.clone(),
                            uuid: uuid.clone(),
                        };
                        skipped.push(detail);
                        proof {
                            assert(views(skipped@) =~= views(skipped_before).push(detail@));
                            assert(dangling(s, f, (i + 1) as nat).map_values(to_skipped)
                                =~= dangling(s, f, i as nat).map_values(to_skipped).push(detail@));
                        }
                    },
                }
            },
            None => {
                proof {
                    count_none(s, f, i as nat, counts@);
                }
            },
        }
        i += 1;
    }
    PresetPairs { brushes, tips, skipped, counts }
}

/// Pairs the tips of a file with its presets.
pub fn pair_brushes(samps: Vec<SampEntry>, infos: &Vec<BrushDescInfo>) -> (r: PairedBrushes)
    ensures
        r@ == paired(views(samps@), views(infos@)),
        r.dropped_samp_count == r.dropped_tip_details@.len(),
        r.skipped_preset_count == r.skipped_preset_details@.len(),
{
    let ghost s = views(samps@);
    let ghost f = views(infos@);
    let PresetPairs { brushes, tips, skipped, counts } = pair_presets(&samps, infos);
    assert(views(brushes@).len() == brushes@.len());
    if brushes.len() > 0 {
        let mut dropped: Vec<DroppedTipDetail> = Vec::new();
        let mut dropped_tips: Vec<Option<DeferredTip>> = Vec::new();
        let ghost to_dropped = |k: nat| dropped_tip(s, f, k);
        let ghost to_tip = |k: nat| s[k as int].deferred;
        proof {
            assert(views(dropped@) =~= unused(s, f, 0).map_values(to_dropped));
            assert(dropped_tips@ =~= unused(s, f, 0).map_values(to_tip));
        }
        let mut k: usize = 0;
        while k < samps.len()
            invariant
                k <= samps@.len(),
                s == views(samps@),
                f == views(infos@),
                counted(s, f, f.len(), counts@),
                to_dropped == (|k: nat| dropped_tip(s, f, k)),
                to_tip == (|k: nat| s[k as int].deferred),
                views(dropped@) == unused(s, f, k as nat).map_values(to_dropped),
                dropped_tips@ == unused(s, f, k as nat).map_values(to_tip),
            decreases samps@.len() - k,
        {
            assert(s[k as int] == samps@[k as int]@);
            assert((counts@[k as int] > 0) == is_used(s, f, f.len(), k as nat));
            if counts[k] == 0 {
                let ghost before = dropped@;
                let detail: DroppedTipDetail = DroppedTipDetail {
                    uuid: copy_text(&samps[k].uuid),
                    width: samps[k].bitmap.width,
                    height: samps[k].bitmap.height,
                    owner_preset_names: owner_names(infos, &samps[k].uuid),
                    bitmap: samps[k].bitmap.duplicate(),
                };
                dropped.push(detail);
                dropped_tips.push(samps[k].deferred);
                proof {
                    assert(views(dropped@) =~= views(before).push(detail@));
                    assert(unused(s, f, (k + 1) as nat).map_values(to_dropped) =~= unused(
                        s,
                        f,
                        k as nat,
                    ).map_values(to_dropped).push(detail@));
                    assert(unused(s, f, (k + 1) as nat).map_values(to_tip) =~= unused(
                        s,
                        f,
                        k as nat,
                    ).map_values(to_tip).push(s[k as int].deferred));
                }
            }
            k += 1;
        }
        return PairedBrushes {
            dropped_samp_count: dropped.len(),
            skipped_preset_count: skipped.len(),
            brushes,
            dropped_tip_details: dropped,
            skipped_preset_details: skipped,
            tips,
            dropped_tips,
        };
    }
    pair_by_place(samps, infos)
}

fn pair_by_place(samps: Vec<SampEntry>, infos: &Vec<BrushDescInfo>) -> (r: PairedBrushes)
    ensures
        ({
            let s = views(samps@);
            let f = views(infos@);
            &&& r@.brushes == Seq::new(s.len(), |j: int| tip_brush(s, f, s.len() - 1 - j))
            &&& r@.tips == Seq::new(s.len(), |j: int| s[s.len() - 1 - j].deferred)
            &&& r@.dropped == Seq::<DroppedTipView>::empty()
            &&& r@.dropped_tips == Seq::<Option<DeferredTip>>::empty()
            &&& r@.skipped == Seq::<SkippedPresetView>::empty()
        }),
        r.dropped_samp_count == r.dropped_tip_details@.len(),
        r.skipped_preset_count == r.skipped_preset_details@.len(),
{
    let ghost s = views(samps@);
    let ghost f = views(infos@);
    let mut left: Vec<SampEntry> = samps;
    let mut brushes: Vec<AbrBrush> = Vec::new();
    let mut tips: Vec<Option<DeferredTip>> = Vec::new();
    while left.len() > 0
        invariant
            f == views(infos@),
            left@.len() + brushes@.len() == s.len(),
            tips@.len() == brushes@.len(),
            views(left@) == s.take(left@.len() as int),
            forall|j: int|
                0 <= j < brushes@.len() ==> (#[trigger] brushes@[j])@ == tip_brush(
                    s,
                    f,
                    s.len() - 1 - j,
                ),
            forall|j: int|
                0 <= j < tips@.len() ==> #[trigger] tips@[j] == s[s.len() - 1 - j].deferred,
        decreases left@.len(),
    {
        let ghost before = left@;
        match left.pop() {
            Some(samp) => {
                let i: usize = left.len();
                proof {
                    assert(views(before)[i as int] == samp@);
                    assert(s[i as int] == samp@);
                    assert(views(left@) =~= s.take(left@.len() as int));
                }
                let SampEntry { uuid, bitmap, deferred } = samp;
                let id: String = match uuid {
                    Some(u) => u,
                    None => with_number("brush_", i as u64),
                };
                let brush: AbrBrush = if i < infos.len() {
                    assert(f[i as int] == infos@[i as int]@);
                    AbrBrush {
                        id,
                        name: infos[i].name.clone(),
                        tip: bitmap,
                        descriptor: infos[i].descriptor.duplicate(),
                        synthesized: false,
                        preset_index: Some(i),
                    }
                } else {
                    let name: String = String::new();
                    assert(name@ =~= seq![]);
                    AbrBrush {
                        id,
                        name,
                        tip: bitmap,
                        descriptor: BrushDescriptor::default(),
                        synthesized: false,
                        preset_index: None,
                    }
                };
                assert(brush@ == tip_brush(s, f, i as int));
                brushes.push(brush);
                tips.push(deferred);
            },
            None => {},
        }
    }
    let r: PairedBrushes = PairedBrushes {
        brushes,
        dropped_samp_count: 0,
        skipped_preset_count: 0,
        dropped_tip_details: Vec::new(),
        skipped_preset_details: Vec::new(),
        tips,
        dropped_tips: Vec::new(),
    };
    assert(r@.brushes =~= Seq::new(s.len(), |j: int| tip_brush(s, f, s.len() - 1 - j)));
    assert(r@.tips =~= Seq::new(s.len(), |j: int| s[s.len() - 1 - j].deferred));
    assert(r@.dropped =~= Seq::<DroppedTipView>::empty());
    assert(r@.dropped_tips =~= Seq::<Option<DeferredTip>>::empty());
    assert(r@.skipped =~= Seq::<SkippedPresetView>::empty());
    r
}

/// Does a preset have a procedural tip and no sampled one?
pub open spec fn is_computed(info: Info) -> bool {
    info.sampled_data_uuid is None && info.descriptor.computed is Some
}

/// Does a preset have neither a sampled nor a procedural tip?
pub open spec fn is_unsupported(info: Info) -> bool {
    info.sampled_data_uuid is None && info.descriptor.computed is None
}

/// Those of the first `n` presets that have a procedural tip and no sampled one.
pub open spec fn computed_of(infos: Seq<Info>, n: nat) -> Seq<ComputedPresetView>
    decreases n,
{
    if n == 0 {
        seq![]
    } else if is_computed(infos[n - 1]) {
        computed_of(infos, (n - 1) as nat).push(
            ComputedPresetView {
                name: infos[n - 1].name,
                descriptor: infos[n - 1].descriptor,
                preset_index: Some((n - 1) as usize),
            },
        )
    } else {
        computed_of(infos, (n - 1) as nat)
    }
}

/// Those of the first `n` presets that have neither a sampled nor a procedural tip.
pub open spec fn unsupported_of(infos: Seq<Info>, n: nat) -> Seq<UnsupportedTipView>
    decreases n,
{
    if n == 0 {
        seq![]
    } else if is_unsupported(infos[n - 1]) {
        unsupported_of(infos, (n - 1) as nat).push(
            UnsupportedTipView {
                name: infos[n - 1].name,
                preset_index: (n - 1) as nat,
                has_shape_tip: infos[n - 1].has_shape_tip,
                shape_tip_family: infos[n - 1].shape_tip_family,
                tip_shape: infos[n - 1].tip_shape,
            },
        )
    } else {
        unsupported_of(infos, (n - 1) as nat)
    }
}

/// The presets that have a procedural tip and no sampled one.
pub fn collect_computed_presets(infos: &Vec<BrushDescInfo>) -> (r: Vec<ComputedPreset>)
    ensures
        views(r@) == computed_of(views(infos@), infos@.len()),
{
    let mut r: Vec<ComputedPreset> = Vec::new();
    assert(views(r@) =~= seq![]);
    let mut i: usize = 0;
    while i < infos.len()
        invariant
            i <= infos@.len(),
            views(r@) == computed_of(views(infos@), i as nat),
        decreases infos@.len() - i,
    {
        let info: &BrushDescInfo = &infos[i];
        assert(views(infos@)[i as int] == info@);
        if info.sampled_data_uuid.is_none() && info.descriptor.computed.is_some() {
            let ghost before = r@;
            let preset: ComputedPreset = ComputedPreset {
                name: info.name.clone(),
                descriptor: info.descriptor.duplicate(),
                preset_index: Some(i),
            };
            r.push(preset);
            assert(views(r@) =~= views(before).push(preset@));
        }
        i += 1;
    }
    r
}

/// The presets that have neither a sampled nor a procedural tip.
pub fn collect_unsupported_tip_presets(infos: &Vec<BrushDescInfo>) -> (r: Vec<
    UnsupportedTipPresetDetail,
>)
    ensures
        views(r@) == unsupported_of(views(infos@), infos@.len()),
{
    let mut r: Vec<UnsupportedTipPresetDetail> = Vec::new();
    assert(views(r@) =~= seq![]);
    let mut i: usize = 0;
    while i < infos.len()
        invariant
            i <= infos@.len(),
            views(r@) == unsupported_of(views(infos@), i as nat),
        decreases infos@.len() - i,
    {
        let info: &BrushDescInfo = &infos[i];
        assert(views(infos@)[i as int] == info@);
        if info.sampled_data_uuid.is_none() && info.descriptor.computed.is_none() {
            let ghost before = r@;
            let preset: UnsupportedTipPresetDetail = UnsupportedTipPresetDetail {
                name: info.name.clone(),
                preset_index: i,
                has_shape_tip: info.has_shape_tip,
                shape_tip_family: info.shape_tip_family,
                tip_shape: info.tip_shape,
            };
            r.push(preset);
            assert(views(r@) =~= views(before).push(preset@));
        }
        i += 1;
    }
    r
}

} // verus!
