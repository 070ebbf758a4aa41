//! The experiment: the loops of the acquisition, outermost first.

use crate::error::{Fault, Nd2Error};
use crate::metadata::fields::{
    field_flag, field_number, field_number_or_zero, field_text, field_u32, get_flag, get_number,
    get_number_or_zero, get_text, get_u32,
};
use crate::parse::value::{
    entries_view, find_entry, lemma_lookup_index, lookup, lookup_index, ClxTree, ClxValue,
};
use crate::parse::walk::{children, lemma_children_decrease, list_children, refs_view};
use crate::types::experiment::{
    loops_view, positions_view, CustomLoop, ExpLoop, LoopModel, NETimeLoop,
    NETimeLoopParams, Period, Position, PositionModel, StagePosition, TimeLoop, TimeLoopParams,
    XYPosLoop, XYPosLoopParams, XYReference, ZStackLoop, ZStackLoopParams,
};
use crate::types::number::Number;
use vstd::prelude::*;

verus! {

/// Whether an object with this single name is a mere envelope round its
/// value.
pub open spec fn is_envelope_name(name: Seq<char>) -> bool {
    name == ""@ || name == "i0000000000"@ || name == "SLxExperiment"@
}

/// The entries that hold the parameters of a loop descriptor: those of
/// `uLoopPars`, taken out of a lone `i0000000000` envelope if there is
/// one, or the descriptor's own where it has no such object.
pub open spec fn loop_params(desc: Seq<(Seq<char>, ClxTree)>) -> Seq<(Seq<char>, ClxTree)> {
    match lookup(desc, "uLoopPars"@) {
        Some(ClxTree::Object(pars)) => {
            if pars.len() == 1 && pars[0].0 == "i0000000000"@ {
                match pars[0].1 {
                    ClxTree::Object(inner) => inner,
                    _ => pars,
                }
            } else {
                pars
            }
        },
        _ => desc,
    }
}

/// The type code of a loop descriptor: `uiLoopType`, or `eType` in its
/// place.
pub open spec fn loop_type_code(desc: Seq<(Seq<char>, ClxTree)>) -> Option<u32> {
    match field_u32(desc, "uiLoopType"@) {
        Some(code) => Some(code),
        None => field_u32(desc, "eType"@),
    }
}

/// Whether the entries carry a loop type, and so describe a loop.
pub open spec fn has_loop_type(desc: Seq<(Seq<char>, ClxTree)>) -> bool {
    lookup(desc, "eType"@) is Some || lookup(desc, "uiLoopType"@) is Some
}

/// The count of a loop: `uiCount` of the parameters, else of the
/// descriptor, else zero.
pub open spec fn loop_count(desc: Seq<(Seq<char>, ClxTree)>) -> u32 {
    match field_u32(loop_params(desc), "uiCount"@) {
        Some(c) => c,
        None => match field_u32(desc, "uiCount"@) {
            Some(c) => c,
            None => 0,
        },
    }
}

/// The nesting level of a loop: `uiNestingLevel`, else zero.
pub open spec fn loop_nesting_level(desc: Seq<(Seq<char>, ClxTree)>) -> u32 {
    match field_u32(desc, "uiNestingLevel"@) {
        Some(level) => level,
        None => 0,
    }
}

/// The truth values of a validity list: the bytes of a byte array, or
/// the children of a list-like value, each true where it reads as true.
pub open spec fn validity(source: Option<ClxTree>) -> Option<Seq<bool>> {
    match source {
        Some(ClxTree::ByteArray(bytes)) => Some(bytes.map_values(|b: u8| b != 0)),
        Some(other) => match children(other) {
            Some(items) => Some(items.map_values(|t: ClxTree| t.as_flag() == Some(true))),
            None => None,
        },
        None => None,
    }
}

/// Whether item `i` passes the validity list: every item does where
/// there is no list, and otherwise those that the list marks as valid.
pub open spec fn is_valid(flags: Option<Seq<bool>>, i: int) -> bool {
    match flags {
        Some(f) => 0 <= i < f.len() && f[i],
        None => true,
    }
}

/// The time loop that a descriptor describes; none where its count is
/// zero.
pub open spec fn time_loop(desc: Seq<(Seq<char>, ClxTree)>) -> Option<LoopModel> {
    let params = loop_params(desc);
    if loop_count(desc) == 0 {
        None
    } else {
        Some(
            LoopModel::Time(
                TimeLoop {
                    count: loop_count(desc),
                    nesting_level: loop_nesting_level(desc),
                    parameters: TimeLoopParams {
                        start_ms: field_number_or_zero(params, "dStart"@),
                        period_ms: field_number_or_zero(params, "dPeriod"@),
                        duration_ms: field_number_or_zero(params, "dDuration"@),
                        period_diff: None,
                    },
                },
            ),
        )
    }
}

/// The custom loop that a descriptor describes; none where its count is
/// zero.
pub open spec fn custom_loop(desc: Seq<(Seq<char>, ClxTree)>) -> Option<LoopModel> {
    if loop_count(desc) == 0 {
        None
    } else {
        Some(
            LoopModel::Custom(
                CustomLoop { count: loop_count(desc), nesting_level: loop_nesting_level(desc) },
            ),
        )
    }
}

/// An unsigned 32-bit number read as a signed one, in two's complement.
pub open spec fn reinterpret_i32(v: u32) -> i32 {
    if v >= 0x8000_0000 {
        (v - 0x1_0000_0000) as i32
    } else {
        v as i32
    }
}

/// The home index of a Z stack: `uiHomeIndex`, else `dZHome` cut to an
/// integer, else zero.
pub open spec fn z_home_index(params: Seq<(Seq<char>, ClxTree)>) -> i32 {
    match field_u32(params, "uiHomeIndex"@) {
        Some(v) => reinterpret_i32(v),
        None => match field_number(params, "dZHome"@) {
            Some(n) => n.spec_to_i32(),
            None => 0,
        },
    }
}

/// The direction of a Z stack: `bBottomToTop`, else whether the integer
/// `iType` is below 4, else false.
pub open spec fn z_bottom_to_top(params: Seq<(Seq<char>, ClxTree)>) -> bool {
    match field_flag(params, "bBottomToTop"@) {
        Some(b) => b,
        None => match lookup(params, "iType"@) {
            Some(ClxTree::Int(i)) => i < 4,
            Some(ClxTree::UInt(u)) => u < 4,
            _ => false,
        },
    }
}

/// The device of a Z stack: the text of `wsZDevice`, else that of
/// `pPeriod`.
pub open spec fn z_device_name(params: Seq<(Seq<char>, ClxTree)>) -> Option<Seq<char>> {
    match field_text(params, "wsZDevice"@) {
        Some(name) => Some(name),
        None => field_text(params, "pPeriod"@),
    }
}

/// The Z stack that a descriptor describes; none where its count is
/// zero.
pub open spec fn z_stack_loop(desc: Seq<(Seq<char>, ClxTree)>) -> Option<LoopModel> {
    let params = loop_params(desc);
    if loop_count(desc) == 0 {
        None
    } else {
        Some(
            LoopModel::ZStack {
                count: loop_count(desc),
                nesting_level: loop_nesting_level(desc),
                home_index: z_home_index(params),
                step_um: field_number_or_zero(params, "dZStep"@),
                bottom_to_top: z_bottom_to_top(params),
                device_name: z_device_name(params),
            },
        )
    }
}

/// The name of a point: the text of `dPosName`, else of `pPosName`, else
/// of `wszName`.
pub open spec fn point_name(point: Seq<(Seq<char>, ClxTree)>) -> Option<Seq<char>> {
    match field_text(point, "dPosName"@) {
        Some(name) => Some(name),
        None => match field_text(point, "pPosName"@) {
            Some(name) => Some(name),
            None => field_text(point, "wszName"@),
        },
    }
}

/// The focus offset of a point: `dPFSOffset` where it is a number that
/// is at least zero.
pub open spec fn point_pfs_offset(point: Seq<(Seq<char>, ClxTree)>) -> Option<Number> {
    match field_number(point, "dPFSOffset"@) {
        Some(n) => if n.spec_is_non_negative() {
            Some(n)
        } else {
            None
        },
        None => None,
    }
}

/// The position that an item of the point list describes; none where the
/// item is no object. The z coordinate is read only where the loop sets
/// z.
pub open spec fn point_of(item: ClxTree, use_z: bool) -> Option<PositionModel> {
    match item {
        ClxTree::Object(point) => Some(
            PositionModel {
                stage_position_um: StagePosition {
                    x: field_number_or_zero(point, "dPosX"@),
                    y: field_number_or_zero(point, "dPosY"@),
                    z: if use_z {
                        field_number_or_zero(point, "dPosZ"@)
                    } else {
                        Number::Float(0)
                    },
                },
                pfs_offset: point_pfs_offset(point),
                name: point_name(point),
            },
        ),
        _ => None,
    }
}

/// The positions among the first `n` items that are objects and pass the
/// validity list, in order.
pub open spec fn points_upto(
    items: Seq<ClxTree>,
    flags: Option<Seq<bool>>,
    use_z: bool,
    n: nat,
) -> Seq<PositionModel>
    decreases n,
{
    if n == 0 {
        Seq::empty()
    } else {
        let before = points_upto(items, flags, use_z, (n - 1) as nat);
        match point_of(items[n - 1], use_z) {
            Some(p) => if is_valid(flags, n - 1) {
                before.push(p)
            } else {
                before
            },
            None => before,
        }
    }
}

/// Whether a position loop sets z: `bUseZ`, else `bIsSettingZ`, else
/// false.
pub open spec fn xy_uses_z(params: Seq<(Seq<char>, ClxTree)>) -> bool {
    match field_flag(params, "bUseZ"@) {
        Some(b) => b,
        None => match field_flag(params, "bIsSettingZ"@) {
            Some(b) => b,
            None => false,
        },
    }
}

/// The reference of a position loop with relative coordinates
/// (`bRelativeXY`): `dReferenceX` and `dReferenceY`.
pub open spec fn xy_reference(params: Seq<(Seq<char>, ClxTree)>) -> Option<XYReference> {
    if field_flag(params, "bRelativeXY"@) == Some(true) {
        Some(
            XYReference {
                x: field_number_or_zero(params, "dReferenceX"@),
                y: field_number_or_zero(params, "dReferenceY"@),
            },
        )
    } else {
        None
    }
}

/// The list that holds the points of a position loop: `Points`, else
/// `pPeriod`.
pub open spec fn xy_point_source(params: Seq<(Seq<char>, ClxTree)>) -> Option<ClxTree> {
    match lookup(params, "Points"@) {
        Some(t) => Some(t),
        None => lookup(params, "pPeriod"@),
    }
}

/// The valid points of a position loop.
pub open spec fn xy_points(params: Seq<(Seq<char>, ClxTree)>) -> Seq<PositionModel> {
    match xy_point_source(params) {
        Some(source) => match children(source) {
            Some(items) => points_upto(
                items,
                validity(lookup(params, "pItemValid"@)),
                xy_uses_z(params),
                items.len(),
            ),
            None => Seq::empty(),
        },
        None => Seq::empty(),
    }
}

/// A length as a 32-bit count, the largest count where it is longer.
pub open spec fn clamp_u32(n: int) -> u32 {
    if n > u32::MAX {
        u32::MAX
    } else if n < 0 {
        0
    } else {
        n as u32
    }
}

/// The position loop that a descriptor describes. A count of zero is
/// replaced by the number of points; the loop is none where that is
/// zero too.
pub open spec fn xy_pos_loop(desc: Seq<(Seq<char>, ClxTree)>) -> Option<LoopModel> {
    let params = loop_params(desc);
    let points = xy_points(params);
    let count = if loop_count(desc) != 0 {
        loop_count(desc)
    } else {
        clamp_u32(points.len() as int)
    };
    if count == 0 {
        None
    } else {
        Some(
            LoopModel::XYPos {
                count,
                nesting_level: loop_nesting_level(desc),
                is_setting_z: xy_uses_z(params),
                reference_xy_um: xy_reference(params),
                points,
            },
        )
    }
}

/// The period that an item of the period list describes; none where the
/// item is no object or its count is zero.
pub open spec fn period_of(item: ClxTree) -> Option<Period> {
    match item {
        ClxTree::Object(period) => match field_u32(period, "uiCount"@) {
            Some(count) => if count == 0 {
                None
            } else {
                Some(
                    Period {
                        count,
                        start_ms: field_number_or_zero(period, "dStart"@),
                        period_ms: match field_number(period, "dPeriod"@) {
                            Some(n) => n,
                            None => field_number_or_zero(period, "dAvgPeriodDiff"@),
                        },
                        duration_ms: field_number_or_zero(period, "dDuration"@),
                        period_diff: None,
                    },
                )
            },
            None => None,
        },
        _ => None,
    }
}

/// The periods among the first `n` items that are described and pass the
/// validity list, in order.
pub open spec fn periods_upto(items: Seq<ClxTree>, flags: Option<Seq<bool>>, n: nat) -> Seq<
    Period,
>
    decreases n,
{
    if n == 0 {
        Seq::empty()
    } else {
        let before = periods_upto(items, flags, (n - 1) as nat);
        match period_of(items[n - 1]) {
            Some(p) => if is_valid(flags, n - 1) {
                before.push(p)
            } else {
                before
            },
            None => before,
        }
    }
}

/// The valid periods of a loop of several periods, from `pPeriod`.
pub open spec fn ne_periods(params: Seq<(Seq<char>, ClxTree)>) -> Seq<Period> {
    match lookup(params, "pPeriod"@) {
        Some(source) => match children(source) {
            Some(items) => periods_upto(
                items,
                validity(lookup(params, "pPeriodValid"@)),
                items.len(),
            ),
            None => Seq::empty(),
        },
        None => Seq::empty(),
    }
}

/// The sum of the counts of the first `n` periods.
pub open spec fn period_total(periods: Seq<Period>, n: nat) -> nat
    decreases n,
{
    if n == 0 {
        0
    } else {
        period_total(periods, (n - 1) as nat) + periods[n - 1].count as nat
    }
}

/// The loop of several periods that a descriptor describes: its count is
/// the sum of the counts of its periods, and it is none where it has no
/// period.
pub open spec fn ne_time_loop(desc: Seq<(Seq<char>, ClxTree)>) -> Option<LoopModel> {
    let periods = ne_periods(loop_params(desc));
    let count = clamp_u32(period_total(periods, periods.len()) as int);
    if count == 0 {
        None
    } else {
        Some(LoopModel::NETime { count, nesting_level: loop_nesting_level(desc), periods })
    }
}

/// The loop that a descriptor itself describes: by its type code a time
/// loop (1), a position loop (2), a Z stack (4), a custom loop (7) or a
/// loop of several periods (8). Any other code, or none, gives no loop.
pub open spec fn own_loop(desc: Seq<(Seq<char>, ClxTree)>) -> Option<LoopModel> {
    match loop_type_code(desc) {
        Some(code) => if code == 1 {
            time_loop(desc)
        } else if code == 2 {
            xy_pos_loop(desc)
        } else if code == 4 {
            z_stack_loop(desc)
        } else if code == 7 {
            custom_loop(desc)
        } else if code == 8 {
            ne_time_loop(desc)
        } else {
            None
        },
        None => None,
    }
}

/// The loops that a tree describes, outermost first.
///
/// An array of one item and an object whose single name marks an
/// envelope stand for their content. Any other object is a descriptor:
/// it gives its own loop, then the loops of `ppNextLevelEx`. That next
/// level is itself a descriptor where it carries a loop type, and else a
/// list whose children are taken in turn.
pub open spec fn loops_in(t: ClxTree) -> Seq<LoopModel>
    decreases t, 0nat,
{
    match t {
        ClxTree::Array(items) => if items.len() == 1 {
            loops_in(items[0])
        } else {
            Seq::empty()
        },
        ClxTree::Object(entries) => if entries.len() == 1 && is_envelope_name(entries[0].0) {
            loops_in(entries[0].1)
        } else {
            let own = match own_loop(entries) {
                Some(l) => seq![l],
                None => Seq::empty(),
            };
            match lookup_index(entries, "ppNextLevelEx"@) {
                Some(i) => {
                    if 0 <= i < entries.len() {
                        let next = entries[i].1;
                        own + (match next {
                            ClxTree::Object(inner) => if has_loop_type(inner) {
                                loops_in(next)
                            } else {
                                loops_in_children(next, inner.len())
                            },
                            ClxTree::Array(items) => loops_in_children(next, items.len()),
                            _ => Seq::empty(),
                        })
                    } else {
                        own
                    }
                },
                None => own,
            }
        },
        _ => Seq::empty(),
    }
}

/// The loops that the first `n` children of a list-like tree describe.
pub open spec fn loops_in_children(parent: ClxTree, n: nat) -> Seq<LoopModel>
    decreases parent, n,
{
    match children(parent) {
        Some(items) => if 0 < n <= items.len() {
            proof {
                lemma_children_decrease(parent);
            }
            loops_in_children(parent, (n - 1) as nat) + loops_in(items[n - 1])
        } else {
            Seq::empty()
        },
        None => Seq::empty(),
    }
}

/// What an optional flag list says.
pub open spec fn flags_view(flags: Option<Vec<bool>>) -> Option<Seq<bool>> {
    match flags {
        Some(f) => Some(f@),
        None => None,
    }
}

/// What an optional position says.
pub open spec fn position_view(p: Option<Position>) -> Option<PositionModel> {
    match p {
        Some(q) => Some(q@),
        None => None,
    }
}

/// What an optional loop says.
pub open spec fn loop_view(l: Option<ExpLoop>) -> Option<LoopModel> {
    match l {
        Some(m) => Some(m@),
        None => None,
    }
}

/// Every loop that `own_loop` gives runs at least once.
pub proof fn lemma_own_loop_runs(desc: Seq<(Seq<char>, ClxTree)>)
    ensures
        own_loop(desc) matches Some(l) ==> l.count() > 0,
{
}

/// Whether every loop of a list runs at least once.
pub open spec fn all_run(loops: Seq<LoopModel>) -> bool {
    forall|k: int| 0 <= k < loops.len() ==> (#[trigger] loops[k]).count() > 0
}

/// In an experiment no loop has a count of zero: such loops are left
/// out.
pub proof fn lemma_loops_run(t: ClxTree)
    ensures
        all_run(loops_in(t)),
    decreases t, 0nat,
{
    match t {
        ClxTree::Array(items) => {
            if items.len() == 1 {
                lemma_loops_run(items[0]);
            }
        },
        ClxTree::Object(entries) => {
            if entries.len() == 1 && is_envelope_name(entries[0].0) {
                lemma_loops_run(entries[0].1);
            } else {
                lemma_own_loop_runs(entries);
                let own: Seq<LoopModel> = match own_loop(entries) {
                    Some(l) => seq![l],
                    None => Seq::empty(),
                };
                assert(all_run(own));
                match lookup_index(entries, "ppNextLevelEx"@) {
                    Some(i) => {
                        if 0 <= i < entries.len() {
                            let next = entries[i].1;
                            match next {
                                ClxTree::Object(inner) => {
                                    if has_loop_type(inner) {
                                        lemma_loops_run(next);
                                        assert(all_run(own + loops_in(next)));
                                    } else {
                                        lemma_child_loops_run(next, inner.len());
                                        assert(all_run(own + loops_in_children(next, inner.len())));
                                    }
                                },
                                ClxTree::Array(items) => {
                                    lemma_child_loops_run(next, items.len());
                                    assert(all_run(own + loops_in_children(next, items.len())));
                                },
                                _ => {
                                    assert(own + Seq::<LoopModel>::empty() =~= own);
                                },
                            }
                        }
                    },
                    None => {},
                }
            }
        },
        _ => {},
    }
}

/// The loops of the children of a tree all run at least once.
pub proof fn lemma_child_loops_run(parent: ClxTree, n: nat)
    ensures
        all_run(loops_in_children(parent, n)),
    decreases parent, n,
{
    match children(parent) {
        Some(items) => {
            if 0 < n <= items.len() {
                lemma_children_decrease(parent);
                lemma_child_loops_run(parent, (n - 1) as nat);
                lemma_loops_run(items[n - 1]);
                assert(all_run(loops_in_children(parent, (n - 1) as nat) + loops_in(items[n - 1])));
            }
        },
        None => {},
    }
}

/// Whether a string holds exactly the given text.
fn text_is(s: &String, text: &str) -> (same: bool)
    ensures
        same == (s@ == text@),
{
    let wanted: String = text.to_owned();
    *s == wanted
}

/// Whether an object with this single name is a mere envelope.
fn envelope_name(name: &String) -> (yes: bool)
    ensures
        yes == is_envelope_name(name@),
{
    text_is(name, "") || text_is(name, "i0000000000") || text_is(name, "SLxExperiment")
}

/// The entries that hold the parameters of a loop descriptor.
fn params_of<'a>(desc: &'a Vec<(String, ClxValue)>) -> (params: &'a Vec<(String, ClxValue)>)
    ensures
        entries_view(params@) == loop_params(entries_view(desc@)),
{
    match find_entry(desc, "uLoopPars") {
        Some(ClxValue::Object(pars)) => {
            if pars.len() == 1 && text_is(&pars[0].0, "i0000000000") {
                assert(entries_view(pars@)[0] == (pars@[0].0@, pars@[0].1@));
                match &pars[0].1 {
                    ClxValue::Object(inner) => inner,
                    _ => pars,
                }
            } else {
                if pars.len() == 1 {
                    assert(entries_view(pars@)[0] == (pars@[0].0@, pars@[0].1@));
                }
                pars
            }
        },
        _ => desc,
    }
}

/// The count of a loop descriptor.
fn count_of(desc: &Vec<(String, ClxValue)>) -> (count: u32)
    ensures
        count == loop_count(entries_view(desc@)),
{
    match get_u32(params_of(desc), "uiCount") {
        Some(c) => c,
        None => match get_u32(desc, "uiCount") {
            Some(c) => c,
            None => 0,
        },
    }
}

/// The nesting level of a loop descriptor.
fn nesting_level_of(desc: &Vec<(String, ClxValue)>) -> (level: u32)
    ensures
        level == loop_nesting_level(entries_view(desc@)),
{
    match get_u32(desc, "uiNestingLevel") {
        Some(level) => level,
        None => 0,
    }
}

/// Reads a validity list.
fn read_validity(entries: &Vec<(String, ClxValue)>, key: &str) -> (flags: Option<Vec<bool>>)
    ensures
        flags_view(flags) == validity(lookup(entries_view(entries@), key@)),
{
    match find_entry(entries, key) {
        None => None,
        Some(source) => match source {
            ClxValue::ByteArray(bytes) => {
                let mut out: Vec<bool> = Vec::new();
                let mut i: usize = 0;
                while i < bytes.len()
                    invariant
                        i <= bytes@.len(),
                        out@.len() == i,
                        forall|k: int| 0 <= k < i ==> out@[k] == (bytes@[k] != 0),
                    decreases bytes@.len() - i,
                {
                    out.push(bytes[i] != 0);
                    i += 1;
                }
                assert(out@ =~= bytes@.map_values(|b: u8| b != 0));
                Some(out)
            },
            _ => match list_children(source) {
                Some(items) => {
                    let mut out: Vec<bool> = Vec::new();
                    let mut i: usize = 0;
                    while i < items.len()
                        invariant
                            i <= items@.len(),
                            out@.len() == i,
                            forall|k: int|
                                0 <= k < i ==> out@[k] == (items@[k]@.as_flag() == Some(true)),
                        decreases items@.len() - i,
                    {
                        let flag = match items[i].to_flag() {
                            Some(b) => b,
                            None => false,
                        };
                        out.push(flag);
                        i += 1;
                    }
                    assert(out@ =~= refs_view(items@).map_values(
                        |t: ClxTree| t.as_flag() == Some(true),
                    ));
                    Some(out)
                },
                None => None,
            },
        },
    }
}

/// Whether item `i` passes the validity list.
fn passes(flags: &Option<Vec<bool>>, i: usize) -> (yes: bool)
    ensures
        yes == is_valid(flags_view(*flags), i as int),
{
    match flags {
        Some(f) => i < f.len() && f[i],
        None => true,
    }
}

/// Reads one item of a point list.
fn parse_point(item: &ClxValue, use_z: bool) -> (point: Option<Position>)
    ensures
        position_view(point) == point_of(item@, use_z),
{
    match item {
        ClxValue::Object(entries) => {
            let x = get_number_or_zero(entries, "dPosX");
            let y = get_number_or_zero(entries, "dPosY");
            let z = if use_z {
                get_number_or_zero(entries, "dPosZ")
            } else {
                Number::Float(0)
            };
            let pfs_offset = match get_number(entries, "dPFSOffset") {
                Some(n) => if n.is_non_negative() {
                    Some(n)
                } else {
                    None
                },
                None => None,
            };
            let name = match get_text(entries, "dPosName") {
                Some(name) => Some(name),
                None => match get_text(entries, "pPosName") {
                    Some(name) => Some(name),
                    None => get_text(entries, "wszName"),
                },
            };
            Some(Position { stage_position_um: StagePosition { x, y, z }, pfs_offset, name })
        },
        _ => None,
    }
}

/// Reads the valid points of a point list.
fn collect_points(items: &Vec<&ClxValue>, flags: &Option<Vec<bool>>, use_z: bool) -> (points: Vec<
    Position,
>)
    ensures
        positions_view(points@) == points_upto(
            refs_view(items@),
            flags_view(*flags),
            use_z,
            items@.len(),
        ),
{
    let mut points: Vec<Position> = Vec::new();
    let mut i: usize = 0;
    assert(positions_view(points@) =~= Seq::empty());
    while i < items.len()
        invariant
            i <= items@.len(),
            positions_view(points@) == points_upto(
                refs_view(items@),
                flags_view(*flags),
                use_z,
                i as nat,
            ),
        decreases items@.len() - i,
    {
        let ghost before = points@;
        match parse_point(items[i], use_z) {
            Some(p) => {
                if passes(flags, i) {
                    points.push(p);
                    assert(positions_view(points@) =~= positions_view(before).push(p@));
                }
            },
            None => {},
        }
        i += 1;
    }
    points
}

/// Reads one item of a period list.
fn parse_period(item: &ClxValue) -> (period: Option<Period>)
    ensures
        period == period_of(item@),
{
    match item {
        ClxValue::Object(entries) => match get_u32(entries, "uiCount") {
            Some(count) => {
                if count == 0 {
                    None
                } else {
                    let period_ms = match get_number(entries, "dPeriod") {
                        Some(n) => n,
                        None => get_number_or_zero(entries, "dAvgPeriodDiff"),
                    };
                    Some(
                        Period {
                            count,
                            start_ms: get_number_or_zero(entries, "dStart"),
                            period_ms,
                            duration_ms: get_number_or_zero(entries, "dDuration"),
                            period_diff: None,
                        },
                    )
                }
            },
            None => None,
        },
        _ => None,
    }
}

/// Reads the valid periods of a period list.
fn collect_periods(items: &Vec<&ClxValue>, flags: &Option<Vec<bool>>) -> (periods: Vec<Period>)
    ensures
        periods@ == periods_upto(refs_view(items@), flags_view(*flags), items@.len()),
{
    let mut periods: Vec<Period> = Vec::new();
    let mut i: usize = 0;
    assert(periods@ =~= Seq::empty());
    while i < items.len()
        invariant
            i <= items@.len(),
            periods@ == periods_upto(refs_view(items@), flags_view(*flags), i as nat),
        decreases items@.len() - i,
    {
        match parse_period(items[i]) {
            Some(p) => {
                if passes(flags, i) {
                    periods.push(p);
                }
            },
            None => {},
        }
        i += 1;
    }
    periods
}

/// Adds up the counts of the periods, stopping at the largest count.
fn total_count(periods: &Vec<Period>) -> (total: u32)
    ensures
        total == clamp_u32(period_total(periods@, periods@.len()) as int),
{
    let mut total: u32 = 0;
    let mut i: usize = 0;
    while i < periods.len()
        invariant
            i <= periods@.len(),
            total == clamp_u32(period_total(periods@, i as nat) as int),
        decreases periods@.len() - i,
    {
        let c = periods[i].count;
        total = if c > u32::MAX - total {
            u32::MAX
        } else {
            total + c
        };
        i += 1;
    }
    total
}

/// Reads the time loop of a descriptor.
fn parse_time_loop(desc: &Vec<(String, ClxValue)>) -> (found: Option<ExpLoop>)
    ensures
        loop_view(found) == time_loop(entries_view(desc@)),
{
    let count = count_of(desc);
    if count == 0 {
        return None;
    }
    let params = params_of(desc);
    Some(
        ExpLoop::TimeLoop(
            TimeLoop {
                count,
                nesting_level: nesting_level_of(desc),
                parameters: TimeLoopParams {
                    start_ms: get_number_or_zero(params, "dStart"),
                    period_ms: get_number_or_zero(params, "dPeriod"),
                    duration_ms: get_number_or_zero(params, "dDuration"),
                    period_diff: None,
                },
            },
        ),
    )
}

/// Reads the custom loop of a descriptor.
fn parse_custom_loop(desc: &Vec<(String, ClxValue)>) -> (found: Option<ExpLoop>)
    ensures
        loop_view(found) == custom_loop(entries_view(desc@)),
{
    let count = count_of(desc);
    if count == 0 {
        return None;
    }
    Some(ExpLoop::CustomLoop(CustomLoop { count, nesting_level: nesting_level_of(desc) }))
}

/// Reads the Z stack of a descriptor.
fn parse_z_stack_loop(desc: &Vec<(String, ClxValue)>) -> (found: Option<ExpLoop>)
    ensures
        loop_view(found) == z_stack_loop(entries_view(desc@)),
{
    let count = count_of(desc);
    if count == 0 {
        return None;
    }
    let params = params_of(desc);
    let home_index: i32 = match get_u32(params, "uiHomeIndex") {
        Some(v) => if v >= 0x8000_0000 {
            (v as i64 - 0x1_0000_0000i64) as i32
        } else {
            v as i32
        },
        None => match get_number(params, "dZHome") {
            Some(n) => n.to_i32(),
            None => 0,
        },
    };
    let bottom_to_top: bool = match get_flag(params, "bBottomToTop") {
        Some(b) => b,
        None => match find_entry(params, "iType") {
            Some(ClxValue::Int(i)) => *i < 4,
            Some(ClxValue::UInt(u)) => *u < 4,
            _ => false,
        },
    };
    let device_name = match get_text(params, "wsZDevice") {
        Some(name) => Some(name),
        None => get_text(params, "pPeriod"),
    };
    Some(
        ExpLoop::ZStackLoop(
            ZStackLoop {
                count,
                nesting_level: nesting_level_of(desc),
                parameters: ZStackLoopParams {
                    home_index,
                    step_um: get_number_or_zero(params, "dZStep"),
                    bottom_to_top,
                    device_name,
                },
            },
        ),
    )
}

/// Reads the position loop of a descriptor.
fn parse_xy_pos_loop(desc: &Vec<(String, ClxValue)>) -> (found: Option<ExpLoop>)
    ensures
        loop_view(found) == xy_pos_loop(entries_view(desc@)),
{
    let params = params_of(desc);
    let is_setting_z: bool = match get_flag(params, "bUseZ") {
        Some(b) => b,
        None => match get_flag(params, "bIsSettingZ") {
            Some(b) => b,
            None => false,
        },
    };
    let reference_xy_um = if let Some(true) = get_flag(params, "bRelativeXY") {
        Some(
            XYReference {
                x: get_number_or_zero(params, "dReferenceX"),
                y: get_number_or_zero(params, "dReferenceY"),
            },
        )
    } else {
        None
    };
    let source = match find_entry(params, "Points") {
        Some(t) => Some(t),
        None => find_entry(params, "pPeriod"),
    };
    let points: Vec<Position> = match source {
        Some(list) => match list_children(list) {
            Some(items) => {
                let flags = read_validity(params, "pItemValid");
                collect_points(&items, &flags, is_setting_z)
            },
            None => Vec::new(),
        },
        None => Vec::new(),
    };
    assert(positions_view(points@) =~= xy_points(entries_view(params@)));
    let stored = count_of(desc);
    let count: u32 = if stored != 0 {
        stored
    } else if points.len() > u32::MAX as usize {
        u32::MAX
    } else {
        points.len() as u32
    };
    if count == 0 {
        return None;
    }
    Some(
        ExpLoop::XYPosLoop(
            XYPosLoop {
                count,
                nesting_level: nesting_level_of(desc),
                parameters: XYPosLoopParams { is_setting_z, reference_xy_um, points },
            },
        ),
    )
}

/// Reads the loop of several periods of a descriptor.
fn parse_ne_time_loop(desc: &Vec<(String, ClxValue)>) -> (found: Option<ExpLoop>)
    ensures
        loop_view(found) == ne_time_loop(entries_view(desc@)),
{
    let params = params_of(desc);
    let periods: Vec<Period> = match find_entry(params, "pPeriod") {
        Some(list) => match list_children(list) {
            Some(items) => {
                let flags = read_validity(params, "pPeriodValid");
                collect_periods(&items, &flags)
            },
            None => Vec::new(),
        },
        None => Vec::new(),
    };
    assert(periods@ =~= ne_periods(entries_view(params@)));
    let count = total_count(&periods);
    if count == 0 {
        return None;
    }
    Some(
        ExpLoop::NETimeLoop(
            NETimeLoop {
                count,
                nesting_level: nesting_level_of(desc),
                parameters: NETimeLoopParams { periods },
            },
        ),
    )
}

/// Reads the loop that a descriptor itself describes, if it describes
/// one that runs at all.
pub fn parse_single_loop(desc: &Vec<(String, ClxValue)>) -> (found: Option<ExpLoop>)
    ensures
        loop_view(found) == own_loop(entries_view(desc@)),
        found matches Some(l) ==> l@.count() > 0,
{
    let code = match get_u32(desc, "uiLoopType") {
        Some(code) => Some(code),
        None => get_u32(desc, "eType"),
    };
    match code {
        Some(1) => parse_time_loop(desc),
        Some(2) => parse_xy_pos_loop(desc),
        Some(4) => parse_z_stack_loop(desc),
        Some(7) => parse_custom_loop(desc),
        Some(8) => parse_ne_time_loop(desc),
        _ => None,
    }
}

/// Whether the entries carry a loop type.
fn carries_loop_type(desc: &Vec<(String, ClxValue)>) -> (yes: bool)
    ensures
        yes == has_loop_type(entries_view(desc@)),
{
    find_entry(desc, "eType").is_some() || find_entry(desc, "uiLoopType").is_some()
}

/// Appends the loops that a tree describes.
#[verifier::loop_isolation(false)]
fn collect_loops(value: &ClxValue, out: &mut Vec<ExpLoop>)
    ensures
        loops_view(final(out)@) == loops_view(old(out)@) + loops_in(value@),
    decreases value,
{
    let ghost start = loops_view(out@);
    assert(start + Seq::<LoopModel>::empty() =~= start);
    match value {
        ClxValue::Array(items) => {
            assert(value@ == ClxTree::Array(crate::parse::value::items_view(items@)));
            if items.len() == 1 {
                assert(crate::parse::value::items_view(items@)[0] == items@[0]@);
                collect_loops(&items[0], out);
            }
            assert(loops_view(out@) =~= start + loops_in(value@));
        },
        ClxValue::Object(entries) => {
            if entries.len() == 1 {
                assert(entries_view(entries@)[0] == (entries@[0].0@, entries@[0].1@));
            }
            if entries.len() == 1 && envelope_name(&entries[0].0) {
                collect_loops(&entries[0].1, out);
                assert(loops_view(out@) =~= start + loops_in(value@));
            } else {
                let ghost own = match own_loop(entries_view(entries@)) {
                    Some(l) => seq![l],
                    None => Seq::empty(),
                };
                match parse_single_loop(entries) {
                    Some(l) => {
                        out.push(l);
                    },
                    None => {},
                }
                assert(loops_view(out@) =~= start + own);
                proof {
                    lemma_lookup_index(entries_view(entries@), "ppNextLevelEx"@);
                }
                match find_entry(entries, "ppNextLevelEx") {
                    Some(next) => {
                        let ghost i = lookup_index(
                            entries_view(entries@),
                            "ppNextLevelEx"@,
                        ).unwrap();
                        assert(entries_view(entries@)[i].1 == next@);
                        let direct = match next {
                            ClxValue::Object(inner) => carries_loop_type(inner),
                            _ => false,
                        };
                        if direct {
                            collect_loops(next, out);
                            assert(loops_view(out@) =~= start + (own + loops_in(next@)));
                            assert(loops_view(out@) =~= start + loops_in(value@));
                        } else {
                            match list_children(next) {
                                Some(items) => {
                                    let mut j: usize = 0;
                                    assert(loops_view(out@) =~= start + (own + loops_in_children(
                                        next@,
                                        0,
                                    )));
                                    while j < items.len()
                                        invariant
                                            j <= items@.len(),
                                            loops_view(out@) == start + (own + loops_in_children(
                                                next@,
                                                j as nat,
                                            )),
                                        decreases items@.len() - j,
                                    {
                                        let ghost before = loops_view(out@);
                                        collect_loops(items[j], out);
                                        assert(refs_view(items@)[j as int] == items@[j as int]@);
                                        assert(loops_view(out@) =~= start + (own
                                            + loops_in_children(next@, (j + 1) as nat)));
                                        j += 1;
                                    }
                                    proof {
                                        match next@ {
                                            ClxTree::Object(inner) => {
                                                crate::parse::walk::lemma_order_by_name(
                                                    crate::parse::walk::names_of(inner),
                                                    inner.len(),
                                                );
                                            },
                                            _ => {},
                                        }
                                    }
                                    assert(loops_view(out@) =~= start + loops_in(value@));
                                },
                                None => {
                                    assert(own + Seq::<LoopModel>::empty() =~= own);
                                    assert(loops_view(out@) =~= start + loops_in(value@));
                                },
                            }
                        }
                    },
                    None => {
                        assert(loops_view(out@) =~= start + loops_in(value@));
                    },
                }
            }
        },
        _ => {},
    }
}

/// Whether a tree can be the root of an experiment: an object, or an
/// array of one item, which stands for that item.
pub open spec fn is_experiment_root(t: ClxTree) -> bool {
    match t {
        ClxTree::Object(_) => true,
        ClxTree::Array(items) => items.len() == 1,
        _ => false,
    }
}

/// Interprets a decoded experiment tree as the loops of the experiment,
/// outermost first. The tree must be an object or an array of one item;
/// anything in it that describes no loop is passed over.
pub fn parse_experiment(clx: ClxValue) -> (parsed: Result<Vec<ExpLoop>, Nd2Error>)
    ensures
        match parsed {
            Ok(loops) => {
                &&& is_experiment_root(clx@)
                &&& loops_view(loops@) == loops_in(clx@)
                &&& all_run(loops_in(clx@))
            },
            Err(e) => !is_experiment_root(clx@) && e@ == Fault::MetadataParse,
        },
{
    let is_root = match &clx {
        ClxValue::Object(entries) => {
            assert(clx@ == ClxTree::Object(entries_view(entries@)));
            true
        },
        ClxValue::Array(items) => {
            assert(clx@ == ClxTree::Array(crate::parse::value::items_view(items@)));
            items.len() == 1
        },
        _ => false,
    };
    assert(is_root == is_experiment_root(clx@));
    if !is_root {
        return Err(Nd2Error::MetadataParse("Expected object for experiment".to_string()));
    }
    let mut loops: Vec<ExpLoop> = Vec::new();
    assert(loops_view(loops@) =~= Seq::empty());
    collect_loops(&clx, &mut loops);
    proof {
        lemma_loops_run(clx@);
        assert(loops_view(loops@) =~= loops_in(clx@));
    }
    Ok(loops)
}

} // verus!
