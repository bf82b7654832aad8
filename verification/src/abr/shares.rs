//! What becomes of each preset and each tip of a pack.
use vstd::prelude::*;
use crate::abr::laws::a_tip_is_used_or_dropped;
use crate::abr::pairing::{
    computed_of, dangling, dropped_tip, owners, paired, preset_brush, presets_first, resolve,
    skipped_preset, tip_named, tip_named_is_named, unsupported_of, unused, uses, Info,
};
use crate::abr::parser::{parsed, ParsedView, PatternMode, TipMode};
use crate::abr::samp::SampView;
use crate::abr::types::{
    AbrErrorView, ComputedPresetView, DroppedTipView, SkippedPresetView, UnsupportedTipView,
};
use crate::support::bytes::be_u16;
use crate::support::text::decimal;

verus! {

/// Has the preset a procedural tip and no sampled one?
pub open spec fn has_computed_tip(info: Info) -> bool {
    info.sampled_data_uuid is None && info.descriptor.computed is Some
}

/// Has the preset neither a sampled nor a procedural tip?
pub open spec fn has_other_tip(info: Info) -> bool {
    info.sampled_data_uuid is None && info.descriptor.computed is None
}

/// The presets with procedural tips are listed in their order, each with its name, its settings
/// and its place; and no others are.
pub proof fn computed_presets_are_listed(infos: Seq<Info>, n: nat)
    requires
        n <= infos.len() <= usize::MAX,
    ensures
        forall|i: int|
            0 <= i < n && has_computed_tip(#[trigger] infos[i]) ==> computed_of(infos, n).contains(
                ComputedPresetView {
                    name: infos[i].name,
                    descriptor: infos[i].descriptor,
                    preset_index: Some(i as usize),
                },
            ),
        forall|k: int|
            0 <= k < computed_of(infos, n).len() ==> {
                let entry = #[trigger] computed_of(infos, n)[k];
                let i = entry.preset_index->0 as int;
                &&& entry.preset_index is Some
                &&& i < n
                &&& has_computed_tip(infos[i])
                &&& entry.name == infos[i].name
                &&& entry.descriptor == infos[i].descriptor
            },
    decreases n,
{
    if n > 0 {
        computed_presets_are_listed(infos, (n - 1) as nat);
        let before = computed_of(infos, (n - 1) as nat);
        let all = computed_of(infos, n);
        assert forall|i: int| 0 <= i < n && has_computed_tip(#[trigger] infos[i]) implies all.contains(
            ComputedPresetView {
                name: infos[i].name,
                descriptor: infos[i].descriptor,
                preset_index: Some(i as usize),
            },
        ) by {
            let entry = ComputedPresetView {
                name: infos[i].name,
                descriptor: infos[i].descriptor,
                preset_index: Some(i as usize),
            };
            if i < n - 1 {
                assert(before.contains(entry));
                let k = choose|k: int| 0 <= k < before.len() && before[k] == entry;
                assert(all[k] == entry);
            } else {
                assert(all.last() == entry);
                assert(all[all.len() - 1] == entry);
            }
        }
        assert forall|k: int| 0 <= k < all.len() implies {
            let entry = #[trigger] all[k];
            let i = entry.preset_index->0 as int;
            &&& entry.preset_index is Some
            &&& i < n
            &&& has_computed_tip(infos[i])
            &&& entry.name == infos[i].name
            &&& entry.descriptor == infos[i].descriptor
        } by {
            if k < before.len() {
                assert(all[k] == before[k]);
            }
        }
    }
}

/// The presets with tips of other kinds are listed in their order, each with its name, its place
/// and the kind of its tip; and no others are.
pub proof fn unsupported_presets_are_listed(infos: Seq<Info>, n: nat)
    requires
        n <= infos.len() <= usize::MAX,
    ensures
        forall|i: int|
            0 <= i < n && has_other_tip(#[trigger] infos[i]) ==> unsupported_of(infos, n).contains(
                UnsupportedTipView {
                    name: infos[i].name,
                    preset_index: i as nat,
                    has_shape_tip: infos[i].has_shape_tip,
                    shape_tip_family: infos[i].shape_tip_family,
                    tip_shape: infos[i].tip_shape,
                },
            ),
        forall|k: int|
            0 <= k < unsupported_of(infos, n).len() ==> {
                let entry = #[trigger] unsupported_of(infos, n)[k];
                &&& entry.preset_index < n
                &&& has_other_tip(infos[entry.preset_index as int])
            },
    decreases n,
{
    if n > 0 {
        unsupported_presets_are_listed(infos, (n - 1) as nat);
        let before = unsupported_of(infos, (n - 1) as nat);
        let all = unsupported_of(infos, n);
        assert forall|i: int| 0 <= i < n && has_other_tip(#[trigger] infos[i]) implies all.contains(
            UnsupportedTipView {
                name: infos[i].name,
                preset_index: i as nat,
                has_shape_tip: infos[i].has_shape_tip,
                shape_tip_family: infos[i].shape_tip_family,
                tip_shape: infos[i].tip_shape,
            },
        ) by {
            let entry = UnsupportedTipView {
                name: infos[i].name,
                preset_index: i as nat,
                has_shape_tip: infos[i].has_shape_tip,
                shape_tip_family: infos[i].shape_tip_family,
                tip_shape: infos[i].tip_shape,
            };
            if i < n - 1 {
                assert(before.contains(entry));
                let k = choose|k: int| 0 <= k < before.len() && before[k] == entry;
                assert(all[k] == entry);
            } else {
                assert(all[all.len() - 1] == entry);
            }
        }
        assert forall|k: int| 0 <= k < all.len() implies {
            let entry = #[trigger] all[k];
            &&& entry.preset_index < n
            &&& has_other_tip(infos[entry.preset_index as int])
        } by {
            if k < before.len() {
                assert(all[k] == before[k]);
            }
        }
    }
}

/// Has a tip this uuid?
pub open spec fn has_uuid(samps: Seq<SampView>, uuid: Seq<char>) -> bool {
    exists|k: int| 0 <= k < samps.len() && (#[trigger] samps[k]).uuid == Some(uuid)
}

proof fn named_if_there(samps: Seq<SampView>, n: nat, uuid: Seq<char>)
    requires
        n <= samps.len(),
    ensures
        (tip_named(samps, n, uuid) is Some) == (exists|k: int|
            0 <= k < n && (#[trigger] samps[k]).uuid == Some(uuid)),
    decreases n,
{
    if n > 0 {
        named_if_there(samps, (n - 1) as nat, uuid);
    }
}

proof fn danglings_are_named(samps: Seq<SampView>, infos: Seq<Info>, n: nat)
    requires
        n <= infos.len(),
    ensures
        forall|i: nat|
            i < n && (infos[i as int].sampled_data_uuid matches Some(uuid) && !has_uuid(samps, uuid))
                ==> #[trigger] dangling(samps, infos, n).contains(i),
        forall|k: int|
            0 <= k < dangling(samps, infos, n).len() ==> {
                let i = #[trigger] dangling(samps, infos, n)[k];
                &&& i < n
                &&& infos[i as int].sampled_data_uuid matches Some(uuid) && !has_uuid(samps, uuid)
            },
    decreases n,
{
    if n > 0 {
        danglings_are_named(samps, infos, (n - 1) as nat);
        let before = dangling(samps, infos, (n - 1) as nat);
        let all = dangling(samps, infos, n);
        match infos[n - 1].sampled_data_uuid {
            Some(uuid) => {
                named_if_there(samps, samps.len(), uuid);
            },
            None => {},
        }
        assert forall|i: nat|
            i < n && (infos[i as int].sampled_data_uuid matches Some(uuid) && !has_uuid(samps, uuid))
            implies #[trigger] all.contains(i) by {
            if i < n - 1 {
                assert(before.contains(i));
                let k = choose|k: int| 0 <= k < before.len() && before[k] == i;
                assert(all[k] == i);
            } else {
                assert(all[all.len() - 1] == i);
            }
        }
        assert forall|k: int| 0 <= k < all.len() implies {
            let i = #[trigger] all[k];
            &&& i < n
            &&& infos[i as int].sampled_data_uuid matches Some(uuid) && !has_uuid(samps, uuid)
        } by {
            if k < before.len() {
                assert(all[k] == before[k]);
            }
        }
    }
}

/// Where presets name tips, a preset that names a tip that is not there is skipped, and listed
/// with its name and the uuid that it names; and no other is.
pub proof fn a_preset_without_its_tip_is_skipped(samps: Seq<SampView>, infos: Seq<Info>)
    requires
        presets_first(samps, infos),
    ensures
        forall|i: int|
            0 <= i < infos.len() && ((#[trigger] infos[i]).sampled_data_uuid matches Some(uuid)
                && !has_uuid(samps, uuid)) ==> paired(samps, infos).skipped.contains(
                SkippedPresetView { name: infos[i].name, uuid: infos[i].sampled_data_uuid->0 },
            ),
        forall|k: int|
            0 <= k < paired(samps, infos).skipped.len() ==> !has_uuid(
                samps,
                (#[trigger] paired(samps, infos).skipped[k]).uuid,
            ),
{
    let left = dangling(samps, infos, infos.len());
    let skipped = paired(samps, infos).skipped;
    danglings_are_named(samps, infos, infos.len());
    assert forall|i: int|
        0 <= i < infos.len() && ((#[trigger] infos[i]).sampled_data_uuid matches Some(uuid)
            && !has_uuid(samps, uuid)) implies skipped.contains(
        SkippedPresetView { name: infos[i].name, uuid: infos[i].sampled_data_uuid->0 },
    ) by {
        assert(left.contains(i as nat));
        let k = choose|k: int| 0 <= k < left.len() && left[k] == i as nat;
        assert(skipped[k] == skipped_preset(infos, i as nat));
    }
    assert forall|k: int| 0 <= k < skipped.len() implies !has_uuid(
        samps,
        (#[trigger] skipped[k]).uuid,
    ) by {
        assert(skipped[k] == skipped_preset(infos, left[k]));
    }
}

/// Has a preset of this name a dual brush that uses the tip with this uuid?
pub open spec fn uses_in_dual(infos: Seq<Info>, uuid: Seq<char>, name: Seq<char>) -> bool {
    exists|i: int|
        0 <= i < infos.len() && (#[trigger] infos[i]).dual_brush_uuid == Some(uuid)
            && infos[i].name == name
}

proof fn owners_are_named(infos: Seq<Info>, n: nat, uuid: Seq<char>)
    requires
        n <= infos.len(),
    ensures
        forall|i: int|
            0 <= i < n && (#[trigger] infos[i]).dual_brush_uuid == Some(uuid) ==> owners(
                infos,
                n,
                uuid,
            ).contains(infos[i].name),
        forall|k: int|
            0 <= k < owners(infos, n, uuid).len() ==> uses_in_dual(
                infos,
                uuid,
                #[trigger] owners(infos, n, uuid)[k],
            ),
        owners(infos, n, uuid).no_duplicates(),
    decreases n,
{
    if n > 0 {
        owners_are_named(infos, (n - 1) as nat, uuid);
        let before = owners(infos, (n - 1) as nat, uuid);
        let all = owners(infos, n, uuid);
        assert forall|i: int| 0 <= i < n && (#[trigger] infos[i]).dual_brush_uuid == Some(uuid)
            implies all.contains(infos[i].name) by {
            if i < n - 1 || before.contains(infos[i].name) {
                assert(before.contains(infos[i].name));
                let k = choose|k: int| 0 <= k < before.len() && before[k] == infos[i].name;
                assert(all[k] == infos[i].name);
            } else {
                assert(all[all.len() - 1] == infos[i].name);
            }
        }
        assert forall|k: int| 0 <= k < all.len() implies uses_in_dual(
            infos,
            uuid,
            #[trigger] all[k],
        ) by {
            if k < before.len() {
                assert(all[k] == before[k]);
            } else {
                assert(infos[n - 1].dual_brush_uuid == Some(uuid) && infos[n - 1].name == all[k]);
            }
        }
    }
}

/// Is this what is left of a tip that no preset names?
pub open spec fn is_left_of(infos: Seq<Info>, samp: SampView, tip: DroppedTipView) -> bool {
    &&& tip.uuid == samp.uuid
    &&& tip.width == samp.bitmap.width
    &&& tip.height == samp.bitmap.height
    &&& tip.bitmap == samp.bitmap
    &&& tip.owner_preset_names.no_duplicates()
    &&& forall|name: Seq<char>| #[trigger]
        uses_in_dual(infos, samp.uuid->0, name) ==> tip.owner_preset_names.contains(name)
    &&& forall|l: int|
        0 <= l < tip.owner_preset_names.len() ==> uses_in_dual(
            infos,
            samp.uuid->0,
            #[trigger] tip.owner_preset_names[l],
        )
}

/// Where presets name tips, a tip that no preset names is dropped, and listed with its uuid, its
/// size and the names of the presets whose dual brushes use it, each once.
pub proof fn a_tip_without_a_preset_is_dropped(samps: Seq<SampView>, infos: Seq<Info>, k: nat)
    requires
        presets_first(samps, infos),
        k < samps.len(),
        samps[k as int].uuid is Some,
        forall|i: int|
            0 <= i < infos.len() ==> (#[trigger] infos[i]).sampled_data_uuid
                != samps[k as int].uuid,
    ensures
        exists|j: int|
            0 <= j < paired(samps, infos).dropped.len() && is_left_of(
                infos,
                samps[k as int],
                #[trigger] paired(samps, infos).dropped[j],
            ),
{
    let uuid = samps[k as int].uuid->0;
    assert forall|i: int| 0 <= i < infos.len() implies #[trigger] resolve(samps, infos[i]) != Some(
        k,
    ) by {
        match infos[i].sampled_data_uuid {
            Some(named) => {
                tip_named_is_named(samps, samps.len(), named);
            },
            None => {},
        }
    }
    a_tip_is_used_or_dropped(samps, infos, k);
    let left = unused(samps, infos, samps.len());
    assert(left.contains(k));
    let j = choose|j: int| 0 <= j < left.len() && left[j] == k;
    assert(paired(samps, infos).dropped[j] == dropped_tip(samps, infos, k));
    owners_are_named(infos, infos.len(), uuid);
    let names = dropped_tip(samps, infos, k).owner_preset_names;
    assert forall|name: Seq<char>| #[trigger] uses_in_dual(infos, uuid, name) implies names.contains(
        name,
    ) by {
        let i = choose|i: int|
            0 <= i < infos.len() && (#[trigger] infos[i]).dual_brush_uuid == Some(uuid)
                && infos[i].name == name;
        assert(names.contains(infos[i].name));
    }
    assert(is_left_of(infos, samps[k as int], paired(samps, infos).dropped[j]));
}

/// Of the presets that name one tip, the first has its uuid for an id, and the second has the
/// uuid with `-2` behind it.
pub proof fn ids_are_the_uuids(samps: Seq<SampView>, infos: Seq<Info>, i: nat, uuid: Seq<char>)
    requires
        i < infos.len(),
        infos[i as int].sampled_data_uuid == Some(uuid),
    ensures
        (forall|e: int| 0 <= e < i ==> (#[trigger] infos[e]).sampled_data_uuid != Some(uuid))
            ==> preset_brush(samps, infos, i).id == uuid,
        (exists|f: int|
            0 <= f < i && (#[trigger] infos[f]).sampled_data_uuid == Some(uuid) && forall|e: int|
                0 <= e < i && e != f ==> (#[trigger] infos[e]).sampled_data_uuid != Some(uuid))
            ==> preset_brush(samps, infos, i).id == uuid + "-2"@,
{
    assert(uses(infos, i + 1, uuid) == uses(infos, i, uuid) + 1);
    if forall|e: int| 0 <= e < i ==> (#[trigger] infos[e]).sampled_data_uuid != Some(uuid) {
        none_is_counted(infos, 0, i, uuid);
    }
    if exists|f: int|
        0 <= f < i && (#[trigger] infos[f]).sampled_data_uuid == Some(uuid) && forall|e: int|
            0 <= e < i && e != f ==> (#[trigger] infos[e]).sampled_data_uuid != Some(uuid) {
        let f = choose|f: int|
            0 <= f < i && (#[trigger] infos[f]).sampled_data_uuid == Some(uuid) && forall|e: int|
                0 <= e < i && e != f ==> (#[trigger] infos[e]).sampled_data_uuid != Some(uuid);
        none_is_counted(infos, 0, f as nat, uuid);
        none_is_counted(infos, (f + 1) as nat, i, uuid);
        assert(uses(infos, (f + 1) as nat, uuid) == 1);
        assert(uses(infos, i + 1, uuid) == 2);
        reveal_strlit("-");
        reveal_strlit("-2");
        assert(decimal(2) =~= seq!['2']) by {
            reveal_with_fuel(decimal, 3);
        }
        assert(uuid + "-"@ + decimal(2) =~= uuid + "-2"@);
    }
}

proof fn none_is_counted(infos: Seq<Info>, m: nat, n: nat, uuid: Seq<char>)
    requires
        m <= n <= infos.len(),
        forall|e: int| m <= e < n ==> (#[trigger] infos[e]).sampled_data_uuid != Some(uuid),
    ensures
        uses(infos, n, uuid) == uses(infos, m, uuid),
    decreases n,
{
    if n > m {
        none_is_counted(infos, m, (n - 1) as nat, uuid);
    }
}

/// A file that is refused for this reason.
pub open spec fn refused(e: AbrErrorView) -> Result<ParsedView, AbrErrorView> {
    Err(e)
}

/// A file of a version that is not known is refused with its number; one whose first bytes are no
/// version at all is no pack.
pub proof fn unknown_versions_are_refused(d: Seq<u8>, mode: TipMode, patterns: PatternMode)
    ensures
        d.len() < 4 ==> parsed(d, mode, patterns) == refused(AbrErrorView::InvalidHeader),
        d.len() >= 4 && (be_u16(d, 0) == 0 || be_u16(d, 0) > 16) ==> parsed(d, mode, patterns)
            == refused(AbrErrorView::InvalidHeader),
        d.len() >= 4 && 3 <= be_u16(d, 0) <= 16 && be_u16(d, 0) != 6 && be_u16(d, 0) != 7
            && be_u16(d, 0) != 9 && be_u16(d, 0) != 10 ==> parsed(d, mode, patterns) == refused(
            AbrErrorView::UnsupportedVersion(be_u16(d, 0)),
        ),
{
    reveal(parsed);
}

} // verus!
