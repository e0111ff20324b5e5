//! HID keyboard and mouse reports.
use crate::bytes;
use vstd::prelude::*;

verus! {

/// The first usage of an ordinary key and the last.
pub const FIRST_KEY: u16 = 4;

pub const LAST_KEY: u16 = 164;

/// The usage of the first of the eight modifier keys.
pub const FIRST_MODIFIER: u16 = 224;

/// The ordinary keys among `usages` below `end`, each once, in ascending order.
pub open spec fn keys_below(usages: Seq<u16>, end: int) -> Seq<u8>
    decreases end,
{
    if end <= FIRST_KEY {
        Seq::empty()
    } else {
        let before = keys_below(usages, end - 1);
        if usages.contains((end - 1) as u16) {
            before.push((end - 1) as u8)
        } else {
            before
        }
    }
}

/// The ordinary keys among `usages`, each once, in ascending order.
pub open spec fn ordinary_keys(usages: Seq<u16>) -> Seq<u8> {
    keys_below(usages, LAST_KEY + 1)
}

/// The boot-keyboard report of held usages: a modifier bitmap, a reserved zero, and up to
/// six keys in ascending order filled up with zeros, or six ones where more are held.
pub open spec fn is_keyboard_report(usages: Seq<u16>, report: Seq<u8>) -> bool {
    let keys = ordinary_keys(usages);
    &&& report.len() == 8
    &&& report[0] == modifiers(usages)
    &&& report[1] == 0
    &&& forall|i: int|
        0 <= i < 6 ==> #[trigger] report[i + 2] == if keys.len() > 6 {
            1
        } else if i < keys.len() {
            keys[i]
        } else {
            0
        }
}

/// One bit for each modifier key that is held.
pub open spec fn modifiers(usages: Seq<u16>) -> u8 {
    (modifier(usages, 0, 1) + modifier(usages, 1, 2) + modifier(usages, 2, 4) + modifier(
        usages,
        3,
        8,
    ) + modifier(usages, 4, 16) + modifier(usages, 5, 32) + modifier(usages, 6, 64) + modifier(
        usages,
        7,
        128,
    )) as u8
}

/// The weight of a modifier if it is held.
pub open spec fn modifier(usages: Seq<u16>, index: int, weight: int) -> int {
    if usages.contains((FIRST_MODIFIER + index) as u16) {
        weight
    } else {
        0
    }
}

/// Whether a usage is among those held.
pub fn holds(usages: &[u16], usage: u16) -> (r: bool)
    ensures
        r == usages@.contains(usage),
{
    let mut i: usize = 0;
    while i < usages.len()
        invariant
            i <= usages@.len(),
            forall|j: int| 0 <= j < i ==> usages@[j] != usage,
        decreases usages@.len() - i,
    {
        if usages[i] == usage {
            return true;
        }
        i = i + 1;
    }
    false
}

fn modifier_weight(usages: &[u16], index: u16, weight: u8) -> (r: u8)
    requires
        index < 8,
    ensures
        r == modifier(usages@, index as int, weight as int),
{
    if holds(usages, FIRST_MODIFIER + index) {
        weight
    } else {
        0
    }
}

/// The keyboard report of the held usages, which may come in any order and repeatedly.
pub fn keyboard_report(usages: &[u16]) -> (report: [u8; 8])
    ensures
        is_keyboard_report(usages@, report@),
{
    let mut report: [u8; 8] = [0u8; 8];
    let mut count: usize = 0;
    let mut key: u16 = FIRST_KEY;
    while key <= LAST_KEY
        invariant
            FIRST_KEY <= key <= LAST_KEY + 1,
            count == keys_below(usages@, key as int).len(),
            count <= key - FIRST_KEY,
            report@.len() == 8,
            report@[0] == 0,
            report@[1] == 0,
            forall|i: int|
                0 <= i < 6 ==> #[trigger] report@[i + 2] == if i < count {
                    keys_below(usages@, key as int)[i]
                } else {
                    0
                },
        decreases LAST_KEY + 1 - key,
    {
        let ghost before = keys_below(usages@, key as int);
        if holds(usages, key) {
            if count < 6 {
                report[count + 2] = key as u8;
            }
            count = count + 1;
        }
        key = key + 1;
        assert(keys_below(usages@, key as int) == if usages@.contains((key - 1) as u16) {
            before.push((key - 1) as u8)
        } else {
            before
        });
    }
    if count > 6 {
        report[2] = 1;
        report[3] = 1;
        report[4] = 1;
        report[5] = 1;
        report[6] = 1;
        report[7] = 1;
    }
    let m: u8 = modifier_weight(usages, 0, 1) + modifier_weight(usages, 1, 2) + modifier_weight(
        usages,
        2,
        4,
    ) + modifier_weight(usages, 3, 8) + modifier_weight(usages, 4, 16) + modifier_weight(
        usages,
        5,
        32,
    ) + modifier_weight(usages, 6, 64) + modifier_weight(usages, 7, 128);
    report[0] = m;
    report
}

/// The largest displacement of one report, and the largest turn of the wheel.
pub const MAX_STEP: i32 = 32767;

pub const MAX_TURN: i32 = 127;

/// What is left of a displacement once `sent` reports have carried up to `most` each.
pub open spec fn left_after(total: int, sent: int, most: int) -> int {
    if total >= 0 {
        if total > sent * most {
            total - sent * most
        } else {
            0
        }
    } else {
        if -total > sent * most {
            total + sent * most
        } else {
            0
        }
    }
}

/// What report number `i` carries of a displacement.
pub open spec fn carried(total: int, i: int, most: int) -> int {
    left_after(total, i, most) - left_after(total, i + 1, most)
}

/// The bytes of one mouse report, numbers in two's complement.
pub open spec fn mouse_report(buttons: u8, dx: int, dy: int, wheel: int) -> Seq<u8> {
    seq![buttons] + bytes::le_bytes((dx % 0x1_0000) as nat, 2) + bytes::le_bytes(
        (dy % 0x1_0000) as nat,
        2,
    ) + seq![(wheel % 0x100) as u8]
}

/// Whether `n` reports have carried a whole movement.
pub open spec fn all_carried(x: int, y: int, wheel: int, n: int) -> bool {
    &&& left_after(x, n, MAX_STEP as int) == 0
    &&& left_after(y, n, MAX_STEP as int) == 0
    &&& left_after(wheel, n, MAX_TURN as int) == 0
}

/// The reports of a movement: at least one, each carrying as much of what is left as it can,
/// and none after the whole has been carried.
pub open spec fn is_mouse_reports(
    buttons: u8,
    x: int,
    y: int,
    wheel: int,
    reports: Seq<[u8; 6]>,
) -> bool {
    &&& reports.len() >= 1
    &&& all_carried(x, y, wheel, reports.len() as int)
    &&& reports.len() > 1 ==> !all_carried(x, y, wheel, reports.len() - 1)
    &&& forall|i: int|
        0 <= i < reports.len() ==> (#[trigger] reports[i])@ == mouse_report(
            buttons,
            carried(x, i, MAX_STEP as int),
            carried(y, i, MAX_STEP as int),
            carried(wheel, i, MAX_TURN as int),
        )
}

fn clamp_to(x: i32, most: i32) -> (r: i32)
    requires
        most >= 0,
    ensures
        r == if x > most {
            most as int
        } else if x < -most {
            -most
        } else {
            x as int
        },
{
    if x > most {
        most
    } else if x < -most {
        -most
    } else {
        x
    }
}

fn twos16(x: i32) -> (r: u16)
    requires
        -0x8000 <= x < 0x8000,
    ensures
        r == (x as int) % 0x1_0000,
{
    if x < 0 {
        (x + 0x1_0000) as u16
    } else {
        x as u16
    }
}

/// The mouse reports of a movement.
pub fn mouse_hid_reports(buttons: u8, x: i32, y: i32, wheel: i32) -> (result: Vec<[u8; 6]>)
    ensures
        is_mouse_reports(buttons, x as int, y as int, wheel as int, result@),
{
    let mut x_left: i32 = x;
    let mut y_left: i32 = y;
    let mut wheel_left: i32 = wheel;
    let mut result: Vec<[u8; 6]> = Vec::new();
    loop
        invariant_except_break
            result@.len() > 0 ==> !all_carried(
                x as int,
                y as int,
                wheel as int,
                result@.len() as int,
            ),
        invariant
            x_left == left_after(x as int, result@.len() as int, MAX_STEP as int),
            y_left == left_after(y as int, result@.len() as int, MAX_STEP as int),
            wheel_left == left_after(wheel as int, result@.len() as int, MAX_TURN as int),
            forall|i: int|
                0 <= i < result@.len() ==> (#[trigger] result@[i])@ == mouse_report(
                    buttons,
                    carried(x as int, i, MAX_STEP as int),
                    carried(y as int, i, MAX_STEP as int),
                    carried(wheel as int, i, MAX_TURN as int),
                ),
        ensures
            is_mouse_reports(buttons, x as int, y as int, wheel as int, result@),
        decreases (if x_left < 0 { -x_left } else { x_left as int }) + (if y_left < 0 { -y_left } else { y_left as int }) + (if wheel_left < 0 { -wheel_left } else { wheel_left as int }),
    {
        let ghost n = result@.len() as int;
        let dx: i32 = clamp_to(x_left, MAX_STEP);
        let dy: i32 = clamp_to(y_left, MAX_STEP);
        let dw: i32 = clamp_to(wheel_left, MAX_TURN);
        let ux: u16 = twos16(dx);
        let uy: u16 = twos16(dy);
        let uw: u8 = if dw < 0 {
            (dw + 256) as u8
        } else {
            dw as u8
        };
        let report: [u8; 6] = [
            buttons,
            (ux % 256) as u8,
            (ux / 256) as u8,
            (uy % 256) as u8,
            (uy / 256) as u8,
            uw,
        ];
        proof {
            assert(dx == carried(x as int, n, MAX_STEP as int));
            assert(dy == carried(y as int, n, MAX_STEP as int));
            assert(dw == carried(wheel as int, n, MAX_TURN as int));
            reveal_with_fuel(bytes::le_bytes, 3);
            assert(report@ =~= mouse_report(buttons, dx as int, dy as int, dw as int));
        }
        result.push(report);
        x_left = x_left - dx;
        y_left = y_left - dy;
        wheel_left = wheel_left - dw;
        if x_left == 0 && y_left == 0 && wheel_left == 0 {
            break;
        }
    }
    result
}

/// The sum of what the first `n` reports carry.
pub open spec fn carried_sum(total: int, n: nat, most: int) -> int
    decreases n,
{
    if n == 0 {
        0
    } else {
        carried_sum(total, (n - 1) as nat, most) + carried(total, n - 1, most)
    }
}

proof fn lemma_carried_sum(total: int, n: nat, most: int)
    ensures
        carried_sum(total, n, most) == total - left_after(total, n as int, most),
    decreases n,
{
    if n > 0 {
        lemma_carried_sum(total, (n - 1) as nat, most);
    }
}

/// No movement is lost or invented: what the reports carry adds up to the movement, and
/// no report carries more than its fields hold.
pub proof fn law_reports_carry_the_whole_movement(
    buttons: u8,
    x: int,
    y: int,
    wheel: int,
    reports: Seq<[u8; 6]>,
)
    requires
        is_mouse_reports(buttons, x, y, wheel, reports),
    ensures
        carried_sum(x, reports.len(), MAX_STEP as int) == x,
        carried_sum(y, reports.len(), MAX_STEP as int) == y,
        carried_sum(wheel, reports.len(), MAX_TURN as int) == wheel,
        forall|i: int|
            0 <= i < reports.len() ==> {
                &&& -MAX_STEP <= #[trigger] carried(x, i, MAX_STEP as int) <= MAX_STEP
                &&& -MAX_STEP <= carried(y, i, MAX_STEP as int) <= MAX_STEP
                &&& -MAX_TURN <= carried(wheel, i, MAX_TURN as int) <= MAX_TURN
            },
{
    lemma_carried_sum(x, reports.len(), MAX_STEP as int);
    lemma_carried_sum(y, reports.len(), MAX_STEP as int);
    lemma_carried_sum(wheel, reports.len(), MAX_TURN as int);
}

/// A keyboard report depends only on which keys are held, not on how often or in which
/// order they are named.
pub proof fn law_keyboard_report_of_a_set(
    a: Seq<u16>,
    b: Seq<u16>,
    report_a: Seq<u8>,
    report_b: Seq<u8>,
)
    requires
        forall|u: u16| a.contains(u) <==> b.contains(u),
        is_keyboard_report(a, report_a),
        is_keyboard_report(b, report_b),
    ensures
        report_a == report_b,
{
    lemma_same_keys(a, b, LAST_KEY + 1);
    assert forall|i: int| 0 <= i < 8 implies report_a[i] == report_b[i] by {
        if i >= 2 {
            assert(report_a[(i - 2) + 2] == report_b[(i - 2) + 2]);
        }
    }
    assert(report_a =~= report_b);
}

proof fn lemma_same_keys(a: Seq<u16>, b: Seq<u16>, end: int)
    requires
        forall|u: u16| a.contains(u) <==> b.contains(u),
    ensures
        keys_below(a, end) == keys_below(b, end),
    decreases end,
{
    if end > FIRST_KEY {
        lemma_same_keys(a, b, end - 1);
    }
}

/// The ordinary keys that are held, as a set.
pub open spec fn held_below(usages: Seq<u16>, end: int) -> Set<u16> {
    usages.to_set().filter(|u: u16| 4 <= u < end)
}

proof fn lemma_keys_below(usages: Seq<u16>, end: int)
    requires
        4 <= end <= 165,
    ensures
        keys_below(usages, end).len() == held_below(usages, end).len(),
        held_below(usages, end).finite(),
        forall|u: u16|
            #![trigger keys_below(usages, end).contains(u as u8)]
            4 <= u < end ==> (keys_below(usages, end).contains(u as u8) <==> usages.contains(u)),
        forall|i: int|
            0 <= i < keys_below(usages, end).len() ==> 4 <= #[trigger] keys_below(usages, end)[i]
                < end,
        forall|i: int, j: int|
            0 <= i < j < keys_below(usages, end).len() ==> #[trigger] keys_below(usages, end)[i]
                < #[trigger] keys_below(usages, end)[j],
    decreases end,
{
    let here = held_below(usages, end);
    vstd::seq_lib::seq_to_set_is_finite(usages);
    if end == 4 {
        assert(here =~= Set::empty());
    } else {
        let last = (end - 1) as u16;
        lemma_keys_below(usages, end - 1);
        let before = held_below(usages, end - 1);
        let keys = keys_below(usages, end - 1);
        assert(!before.contains(last));
        if usages.contains(last) {
            assert(here =~= before.insert(last));
            assert(keys_below(usages, end) == keys.push(last as u8));
            assert forall|u: u16| 4 <= u < end implies (#[trigger] keys_below(usages, end).contains(
                u as u8,
            ) <==> usages.contains(u)) by {
                if u == last {
                    assert(keys.push(last as u8)[keys.len() as int] == last as u8);
                } else {
                    if keys.contains(u as u8) {
                        let i = choose|i: int| 0 <= i < keys.len() && keys[i] == u as u8;
                        assert(keys.push(last as u8)[i] == u as u8);
                    }
                    let more = keys.push(last as u8);
                    if more.contains(u as u8) {
                        let i = choose|i: int| 0 <= i < more.len() && more[i] == u as u8;
                        assert(keys[i] == u as u8);
                    }
                }
            }
        } else {
            assert(here =~= before);
            assert forall|u: u16| 4 <= u < end implies (#[trigger] keys_below(usages, end).contains(
                u as u8,
            ) <==> usages.contains(u)) by {
                if u == last && keys.contains(u as u8) {
                    let i = choose|i: int| 0 <= i < keys.len() && keys[i] == u as u8;
                    assert(keys[i] < end - 1);
                }
            }
        }
    }
}

/// Up to six ordinary keys are shown by their usages, smallest first and each once, with
/// zeros behind them. A usage stands in the report if and only if its key is held.
pub proof fn law_held_keys_are_shown(usages: Seq<u16>, report: Seq<u8>)
    requires
        is_keyboard_report(usages, report),
        held_below(usages, 165).len() <= 6,
    ensures
        report.len() == 8,
        forall|u: u16|
            #![trigger usages.contains(u)]
            4 <= u <= 164 ==> (usages.contains(u) <==> exists|i: int|
                2 <= i < 8 && #[trigger] report[i] == u),
        forall|i: int, j: int|
            2 <= i < j < 8 && #[trigger] report[j] != 0 ==> 4 <= #[trigger] report[i] < report[j],
{
    lemma_keys_below(usages, 165);
    let keys = ordinary_keys(usages);
    assert forall|i: int| 2 <= i < 8 implies #[trigger] report[i] == if i - 2 < keys.len() {
        keys[i - 2]
    } else {
        0
    } by {
        assert(report[(i - 2) + 2] == report[i]);
    }
    assert forall|u: u16| 4 <= u <= 164 implies (#[trigger] usages.contains(u) <==> exists|i: int|
        2 <= i < 8 && #[trigger] report[i] == u) by {
        if usages.contains(u) {
            assert(keys.contains(u as u8));
            let k = choose|k: int| 0 <= k < keys.len() && keys[k] == u as u8;
            assert(report[k + 2] == u);
        }
        if exists|i: int| 2 <= i < 8 && #[trigger] report[i] == u {
            let i = choose|i: int| 2 <= i < 8 && #[trigger] report[i] == u;
            assert(keys[i - 2] == u as u8);
            assert(keys.contains(u as u8));
        }
    }
}

/// Where more than six ordinary keys are held, the report says so: all six places hold a
/// one.
pub proof fn law_too_many_keys_are_reported_as_such(usages: Seq<u16>, report: Seq<u8>, i: int)
    requires
        is_keyboard_report(usages, report),
        held_below(usages, 165).len() > 6,
        2 <= i < 8,
    ensures
        report[i] == 1,
{
    lemma_keys_below(usages, 165);
    assert(report[(i - 2) + 2] == 1);
}

/// The first byte has a bit for each modifier, lowest bit first, which is set if and only
/// if the modifier is held; the second byte is zero.
pub proof fn law_modifiers_have_their_bits(usages: Seq<u16>, report: Seq<u8>)
    requires
        is_keyboard_report(usages, report),
    ensures
        report[0] % 2 == 1 <==> usages.contains(224u16),
        (report[0] / 2) % 2 == 1 <==> usages.contains(225u16),
        (report[0] / 4) % 2 == 1 <==> usages.contains(226u16),
        (report[0] / 8) % 2 == 1 <==> usages.contains(227u16),
        (report[0] / 16) % 2 == 1 <==> usages.contains(228u16),
        (report[0] / 32) % 2 == 1 <==> usages.contains(229u16),
        (report[0] / 64) % 2 == 1 <==> usages.contains(230u16),
        (report[0] / 128) % 2 == 1 <==> usages.contains(231u16),
        report[1] == 0,
{
    assert(usages.contains(224u16) == (modifier(usages, 0, 1) == 1));
    assert(usages.contains(225u16) == (modifier(usages, 1, 2) == 2));
    assert(usages.contains(226u16) == (modifier(usages, 2, 4) == 4));
    assert(usages.contains(227u16) == (modifier(usages, 3, 8) == 8));
    assert(usages.contains(228u16) == (modifier(usages, 4, 16) == 16));
    assert(usages.contains(229u16) == (modifier(usages, 5, 32) == 32));
    assert(usages.contains(230u16) == (modifier(usages, 6, 64) == 64));
    assert(usages.contains(231u16) == (modifier(usages, 7, 128) == 128));
}

/// A 16-bit number in two's complement, low byte first.
pub open spec fn signed16(low: u8, high: u8) -> int {
    if high >= 128 {
        low + 256 * high - 65536
    } else {
        low + 256 * high
    }
}

pub open spec fn signed8(byte: u8) -> int {
    if byte >= 128 {
        byte - 256
    } else {
        byte as int
    }
}

/// How far some reports move the pointer to the right, by their bytes.
pub open spec fn moved_right(reports: Seq<[u8; 6]>) -> int
    decreases reports.len(),
{
    if reports.len() == 0 {
        0
    } else {
        moved_right(reports.drop_last()) + signed16(reports.last()@[1], reports.last()@[2])
    }
}

/// How far some reports move the pointer down, by their bytes.
pub open spec fn moved_down(reports: Seq<[u8; 6]>) -> int
    decreases reports.len(),
{
    if reports.len() == 0 {
        0
    } else {
        moved_down(reports.drop_last()) + signed16(reports.last()@[3], reports.last()@[4])
    }
}

/// How far some reports turn the wheel, by their bytes.
pub open spec fn turned(reports: Seq<[u8; 6]>) -> int
    decreases reports.len(),
{
    if reports.len() == 0 {
        0
    } else {
        turned(reports.drop_last()) + signed8(reports.last()@[5])
    }
}

proof fn lemma_report_bytes(buttons: u8, dx: int, dy: int, wheel: int, report: Seq<u8>)
    requires
        report == mouse_report(buttons, dx, dy, wheel),
        -32767 <= dx <= 32767,
        -32767 <= dy <= 32767,
        -127 <= wheel <= 127,
    ensures
        report.len() == 6,
        report[0] == buttons,
        signed16(report[1], report[2]) == dx,
        signed16(report[3], report[4]) == dy,
        signed8(report[5]) == wheel,
{
    reveal_with_fuel(bytes::le_bytes, 3);
    let x = dx % 0x1_0000;
    let y = dy % 0x1_0000;
    assert(0 <= x < 65536 && 0 <= y < 65536);
    assert(report[1] == x % 256 && report[2] == x / 256);
    assert(report[3] == y % 256 && report[4] == y / 256);
    assert(x == dx || x == dx + 65536);
    assert(y == dy || y == dy + 65536);
}

proof fn lemma_moved(buttons: u8, x: int, y: int, wheel: int, reports: Seq<[u8; 6]>)
    requires
        forall|i: int|
            0 <= i < reports.len() ==> (#[trigger] reports[i])@ == mouse_report(
                buttons,
                carried(x, i, MAX_STEP as int),
                carried(y, i, MAX_STEP as int),
                carried(wheel, i, MAX_TURN as int),
            ),
    ensures
        moved_right(reports) == carried_sum(x, reports.len(), MAX_STEP as int),
        moved_down(reports) == carried_sum(y, reports.len(), MAX_STEP as int),
        turned(reports) == carried_sum(wheel, reports.len(), MAX_TURN as int),
    decreases reports.len(),
{
    if reports.len() > 0 {
        let before = reports.drop_last();
        assert forall|i: int| 0 <= i < before.len() implies (#[trigger] before[i])@ == mouse_report(
            buttons,
            carried(x, i, MAX_STEP as int),
            carried(y, i, MAX_STEP as int),
            carried(wheel, i, MAX_TURN as int),
        ) by {
            assert(before[i] == reports[i]);
        }
        lemma_moved(buttons, x, y, wheel, before);
        let i = reports.len() - 1;
        assert(reports[i] == reports.last());
        lemma_report_bytes(
            buttons,
            carried(x, i, MAX_STEP as int),
            carried(y, i, MAX_STEP as int),
            carried(wheel, i, MAX_TURN as int),
            reports.last()@,
        );
    }
}

/// Read byte by byte, the reports move the pointer and turn the wheel by exactly what was
/// asked for, every one of them has the buttons, and none reverses the movement. There
/// is always one, and of several none is idle.
pub proof fn law_report_bytes_add_up(
    buttons: u8,
    x: int,
    y: int,
    wheel: int,
    reports: Seq<[u8; 6]>,
)
    requires
        is_mouse_reports(buttons, x, y, wheel, reports),
    ensures
        moved_right(reports) == x,
        moved_down(reports) == y,
        turned(reports) == wheel,
        reports.len() >= 1,
        forall|i: int|
            0 <= i < reports.len() ==> {
                let report = (#[trigger] reports[i])@;
                let (right, down, turn) = (
                    signed16(report[1], report[2]),
                    signed16(report[3], report[4]),
                    signed8(report[5]),
                );
                &&& report[0] == buttons
                &&& x >= 0 ==> right >= 0
                &&& x <= 0 ==> right <= 0
                &&& y >= 0 ==> down >= 0
                &&& y <= 0 ==> down <= 0
                &&& wheel >= 0 ==> turn >= 0
                &&& wheel <= 0 ==> turn <= 0
                &&& reports.len() > 1 ==> right != 0 || down != 0 || turn != 0
                // A further report follows only one that was full.
                &&& i < reports.len() - 1 ==> right == 32767 || right == -32767 || down == 32767
                    || down == -32767 || turn == 127 || turn == -127
            },
{
    lemma_moved(buttons, x, y, wheel, reports);
    law_reports_carry_the_whole_movement(buttons, x, y, wheel, reports);
    assert forall|i: int| 0 <= i < reports.len() implies {
        let report = (#[trigger] reports[i])@;
        let (right, down, turn) = (
            signed16(report[1], report[2]),
            signed16(report[3], report[4]),
            signed8(report[5]),
        );
        &&& report[0] == buttons
        &&& x >= 0 ==> right >= 0
        &&& x <= 0 ==> right <= 0
        &&& y >= 0 ==> down >= 0
        &&& y <= 0 ==> down <= 0
        &&& wheel >= 0 ==> turn >= 0
        &&& wheel <= 0 ==> turn <= 0
        &&& reports.len() > 1 ==> right != 0 || down != 0 || turn != 0
        &&& i < reports.len() - 1 ==> right == 32767 || right == -32767 || down == 32767 || down
            == -32767 || turn == 127 || turn == -127
    } by {
        lemma_report_bytes(
            buttons,
            carried(x, i, MAX_STEP as int),
            carried(y, i, MAX_STEP as int),
            carried(wheel, i, MAX_TURN as int),
            reports[i]@,
        );
        if reports.len() > 1 {
            let n = reports.len() - 1;
            lemma_left_falls(x, i, n, MAX_STEP as int);
            lemma_left_falls(y, i, n, MAX_STEP as int);
            lemma_left_falls(wheel, i, n, MAX_TURN as int);
        }
    }
}

/// What is left after some reports was left before them too, and then they carried some
/// of it.
proof fn lemma_left_falls(total: int, i: int, n: int, most: int)
    requires
        0 <= i <= n,
        most > 0,
    ensures
        left_after(total, n, most) != 0 ==> carried(total, i, most) != 0,
        left_after(total, n, most) != 0 && i < n ==> carried(total, i, most) == most || carried(
            total,
            i,
            most,
        ) == -most,
{
    assert(i * most <= n * most) by (nonlinear_arith)
        requires
            0 <= i <= n,
            most > 0,
    ;
    assert((i + 1) * most == i * most + most) by (nonlinear_arith);
    if i < n {
        assert((i + 1) * most <= n * most) by (nonlinear_arith)
            requires
                i + 1 <= n,
                most > 0,
        ;
    }
}

/// The report of some keys is that of any other list of the same keys.
pub proof fn lemma_report_of_a_set(a: Seq<u16>, b: Seq<u16>, report: Seq<u8>)
    requires
        forall|u: u16| a.contains(u) <==> b.contains(u),
        is_keyboard_report(a, report),
    ensures
        is_keyboard_report(b, report),
{
    lemma_same_keys(a, b, LAST_KEY + 1);
}

} // verus!
