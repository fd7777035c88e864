//! Numbers as the user reads them.
use crate::tasks::TaskStatus;
use crate::text::{decimal, push_decimal};
use vstd::prelude::*;

verus! {

/// `n / d` rounded to the nearest integer, and to the even one of two that are equally near.
pub open spec fn nearest(n: nat, d: nat) -> nat {
    let q = n / d;
    let r = n % d;
    if 2 * r > d || (2 * r == d && q % 2 == 1) {
        q + 1
    } else {
        q
    }
}

/// The smallest of the numbers `step`, `2 * step`, `4 * step` and so on of which `value` holds
/// fewer than two to the power of 53.
pub open spec fn precision_step(value: nat, step: nat) -> nat
    decreases value / step,
    when step > 0
    via precision_step_ends
{
    if value / step < 0x20_0000_0000_0000 {
        step
    } else {
        precision_step(value, 2 * step)
    }
}

#[via_fn]
proof fn precision_step_ends(value: nat, step: nat) {
    if value / step >= 0x20_0000_0000_0000 {
        assert(value / (2 * step) < value / step) by (nonlinear_arith)
            requires
                step > 0,
                value / step >= 0x20_0000_0000_0000,
        ;
    }
}

/// A number with 53 significant bits, as a double-precision number holds it.
pub open spec fn in_double(value: nat) -> nat {
    let step = precision_step(value, 1);
    nearest(value, step) * step
}

/// The number of bytes in a unit: 1024 for the first, and 1024 times as many for each that
/// follows.
pub open spec fn unit_size(index: nat) -> nat
    decreases index,
{
    if index == 0 {
        1024
    } else {
        1024 * unit_size((index - 1) as nat)
    }
}

/// The unit that a number of bytes is given in: the first of which there are fewer than 1024, or
/// the last.
pub open spec fn unit_index(bytes: nat, index: nat) -> nat
    decreases 4 - index,
{
    if index < 4 && bytes >= 1024 * unit_size(index) {
        unit_index(bytes, index + 1)
    } else {
        index
    }
}

/// The name of a unit.
pub open spec fn unit_name(index: nat) -> Seq<char> {
    if index == 0 {
        "KB"@
    } else if index == 1 {
        "MB"@
    } else if index == 2 {
        "GB"@
    } else if index == 3 {
        "TB"@
    } else {
        "PB"@
    }
}

/// A number of bytes as the user reads it: with one decimal, or none from 100 on.
pub open spec fn bytes_text(value: nat) -> Seq<char> {
    if value < 1024 {
        decimal(value) + " B"@
    } else {
        let bytes = in_double(value);
        let index = unit_index(bytes, 0);
        let unit = unit_size(index);
        if bytes >= 100 * unit {
            decimal(nearest(bytes, unit)) + " "@ + unit_name(index)
        } else {
            let tenths = nearest(10 * bytes, unit);
            decimal(tenths / 10) + "."@ + decimal(tenths % 10) + " "@ + unit_name(index)
        }
    }
}

/// `n / d` rounded to the nearest integer.
fn round_nearest(n: u128, d: u128) -> (q: u128)
    requires
        0 < d <= 0x1000_0000_0000_0000,
        n <= 0x1000_0000_0000_0000_0000,
    ensures
        q == nearest(n as nat, d as nat),
{
    let q: u128 = n / d;
    let r: u128 = n % d;
    assert(q <= n) by (nonlinear_arith)
        requires
            q == n / d,
            d > 0,
    ;
    if 2 * r > d || (2 * r == d && q % 2 == 1) {
        q + 1
    } else {
        q
    }
}

/// A number with 53 significant bits, as a double-precision number holds it.
fn to_double(value: u64) -> (rounded: u128)
    ensures
        rounded == in_double(value as nat),
        rounded <= 0x2_0000_0000_0000_0000,
{
    let mut step: u128 = 1;
    let wide: u128 = value as u128;
    while wide / step >= 0x20_0000_0000_0000
        invariant
            wide == value,
            0 < step <= 4096,
            precision_step(wide as nat, step as nat) == precision_step(wide as nat, 1),
        decreases 4096 - step,
    {
        proof {
            assert(step < 2048) by (nonlinear_arith)
                requires
                    wide / step >= 0x20_0000_0000_0000,
                    wide <= 0xffff_ffff_ffff_ffff,
                    0 < step,
            ;
        }
        step = 2 * step;
    }
    let q = round_nearest(wide, step);
    assert(q * step <= wide + step) by (nonlinear_arith)
        requires
            q <= wide / step + 1,
            0 < step,
    ;
    q * step
}

/// The number of bytes in a unit.
fn unit_bytes(index: usize) -> (size: u128)
    requires
        index <= 4,
    ensures
        size == unit_size(index as nat),
        0 < size <= 0x4_0000_0000_0000,
{
    reveal_with_fuel(unit_size, 6);
    if index == 0 {
        0x400
    } else if index == 1 {
        0x10_0000
    } else if index == 2 {
        0x4000_0000
    } else if index == 3 {
        0x100_0000_0000
    } else {
        0x4_0000_0000_0000
    }
}

/// A number of bytes as the user reads it.
pub fn format_bytes(value: u64) -> (text: String)
    ensures
        text@ == bytes_text(value as nat),
{
    let mut text = String::new();
    if value < 1024 {
        push_decimal(&mut text, value as u128);
        text.append(" B");
        assert(text@ == decimal(value as nat) + " B"@);
        return text;
    }
    let bytes = to_double(value);
    let mut index: usize = 0;
    while index < 4 && bytes >= 1024 * unit_bytes(index)
        invariant
            index <= 4,
            unit_index(bytes as nat, index as nat) == unit_index(bytes as nat, 0),
        decreases 4 - index,
    {
        index = index + 1;
    }
    let unit = unit_bytes(index);
    if bytes >= 100 * unit {
        push_decimal(&mut text, round_nearest(bytes, unit));
        assert(text@ == decimal(nearest(bytes as nat, unit as nat)));
    } else {
        let tenths = round_nearest(10 * bytes, unit);
        push_decimal(&mut text, tenths / 10);
        text.append(".");
        push_decimal(&mut text, tenths % 10);
        assert(text@ == decimal((tenths / 10) as nat) + "."@ + decimal((tenths % 10) as nat));
    }
    text.append(" ");
    if index == 0 {
        text.append("KB");
    } else if index == 1 {
        text.append("MB");
    } else if index == 2 {
        text.append("GB");
    } else if index == 3 {
        text.append("TB");
    } else {
        text.append("PB");
    }
    text
}

/// A time in seconds as the user reads it. Less than a second is shown as one.
pub open spec fn duration_text(seconds: nat) -> Seq<char> {
    let total = if seconds < 1 {
        1
    } else {
        seconds
    };
    if total < 60 {
        decimal(total) + " 秒"@
    } else if total < 3600 {
        decimal(total / 60) + " 分 "@ + decimal(total % 60) + " 秒"@
    } else {
        decimal(total / 3600) + " 小时 "@ + decimal(total / 60 % 60) + " 分"@
    }
}

/// A time in seconds as the user reads it.
pub fn format_duration(seconds: u64) -> (text: String)
    ensures
        text@ == duration_text(seconds as nat),
{
    let total: u64 = if seconds < 1 {
        1
    } else {
        seconds
    };
    let mut text = String::new();
    if total < 60 {
        push_decimal(&mut text, total as u128);
        text.append(" 秒");
        assert(text@ == decimal(total as nat) + " 秒"@);
        return text;
    }
    let minutes: u64 = total / 60;
    let rest_seconds: u64 = total % 60;
    if minutes < 60 {
        push_decimal(&mut text, minutes as u128);
        text.append(" 分 ");
        push_decimal(&mut text, rest_seconds as u128);
        text.append(" 秒");
        assert(text@ == decimal(minutes as nat) + " 分 "@ + decimal(rest_seconds as nat)
            + " 秒"@);
        return text;
    }
    let hours: u64 = minutes / 60;
    let rest_minutes: u64 = minutes % 60;
    push_decimal(&mut text, hours as u128);
    text.append(" 小时 ");
    push_decimal(&mut text, rest_minutes as u128);
    text.append(" 分");
    assert(text@ == decimal(hours as nat) + " 小时 "@ + decimal(rest_minutes as nat) + " 分"@);
    text
}

/// What is said of the time that a task still needs.
pub open spec fn eta_text(status: TaskStatus, remaining_bytes: nat, speed_bps: nat) -> Seq<char> {
    match status {
        TaskStatus::Completed => "已完成"@,
        TaskStatus::Failed => "失败"@,
        TaskStatus::Cancelled => "已取消"@,
        TaskStatus::Paused => "已暂停"@,
        _ => if remaining_bytes == 0 || speed_bps == 0 {
            "计算中"@
        } else {
            "剩余 "@ + duration_text(remaining_bytes / speed_bps)
        },
    }
}

/// What is said of the time that a task still needs.
pub fn format_eta(status: &TaskStatus, remaining_bytes: u64, speed_bps: u64) -> (text: String)
    ensures
        text@ == eta_text(*status, remaining_bytes as nat, speed_bps as nat),
{
    match status {
        TaskStatus::Completed => "已完成".to_string(),
        TaskStatus::Failed => "失败".to_string(),
        TaskStatus::Cancelled => "已取消".to_string(),
        TaskStatus::Paused => "已暂停".to_string(),
        _ => {
            if remaining_bytes == 0 || speed_bps == 0 {
                "计算中".to_string()
            } else {
                let mut text = "剩余 ".to_string();
                text.append(&format_duration(remaining_bytes / speed_bps));
                text
            }
        },
    }
}

/// A speed as the user reads it.
pub fn format_speed(bytes_per_second: u64) -> (text: String)
    ensures
        text@ == bytes_text(bytes_per_second as nat) + "/s"@,
{
    let mut text = format_bytes(bytes_per_second);
    text.append("/s");
    text
}

/// Numbers that a double-precision number holds exactly are shown as they are.
pub proof fn small_numbers_are_exact(value: nat)
    requires
        value < 0x20_0000_0000_0000,
    ensures
        in_double(value) == value,
{
    assert(value / 1 == value);
    assert(precision_step(value, 1) == 1);
    assert(nearest(value, 1) == value);
}

/// A rounded number is no further from the exact one than half a step.
pub proof fn rounding_is_near(n: nat, d: nat)
    requires
        d > 0,
    ensures
        -(d as int) <= 2 * (nearest(n, d) * d - n) <= d,
{
    vstd::arithmetic::div_mod::lemma_fundamental_div_mod(n as int, d as int);
    let q = (n / d) as int;
    vstd::arithmetic::mul::lemma_mul_is_commutative(d as int, q);
    vstd::arithmetic::mul::lemma_mul_is_distributive_add_other_way(d as int, q, 1);
}

/// A number of bytes is given in the largest unit of which there is at least one, up to the fifth,
/// and each unit is 1024 times the one before.
pub proof fn units_fit_the_number(bytes: nat)
    requires
        bytes >= 1024,
    ensures
        unit_size(0) == 0x400,
        unit_size(1) == 0x10_0000,
        unit_size(2) == 0x4000_0000,
        unit_size(3) == 0x100_0000_0000,
        unit_size(4) == 0x4_0000_0000_0000,
        unit_index(bytes, 0) <= 4,
        unit_size(unit_index(bytes, 0)) <= bytes,
        unit_index(bytes, 0) < 4 ==> bytes < 1024 * unit_size(unit_index(bytes, 0)),
{
    reveal_with_fuel(unit_size, 6);
    reveal_with_fuel(unit_index, 6);
}

/// A number of whole units is shown as it is: with a zero behind the point below 100, and without
/// a point from 100 on. Fewer than 1024 bytes are counted one by one.
pub proof fn whole_units_are_shown_as_they_are(count: nat, index: nat)
    requires
        index <= 3,
        1 <= count < 1024,
    ensures
        bytes_text(count) == decimal(count) + " B"@,
        count >= 100 ==> bytes_text(count * unit_size(index)) == decimal(count) + " "@ + (
        if index == 0 {
            "KB"@
        } else if index == 1 {
            "MB"@
        } else if index == 2 {
            "GB"@
        } else {
            "TB"@
        }),
        count < 100 ==> bytes_text(count * unit_size(index)) == decimal(count) + "."@ + decimal(0)
            + " "@ + (if index == 0 {
            "KB"@
        } else if index == 1 {
            "MB"@
        } else if index == 2 {
            "GB"@
        } else {
            "TB"@
        }),
{
    reveal_with_fuel(unit_size, 6);
    reveal_with_fuel(unit_index, 6);
    let unit = unit_size(index);
    let value = count * unit;
    assert(unit == 0x400 || unit == 0x10_0000 || unit == 0x4000_0000 || unit == 0x100_0000_0000);
    assert(1024 <= value < 0x4_0000_0000_0000) by (nonlinear_arith)
        requires
            value == count * unit,
            1 <= count < 1024,
            unit == 0x400 || unit == 0x10_0000 || unit == 0x4000_0000 || unit == 0x100_0000_0000,
    ;
    small_numbers_are_exact(value);
    assert(unit <= value && value < 1024 * unit) by (nonlinear_arith)
        requires
            value == count * unit,
            1 <= count < 1024,
            unit > 0,
    ;
    assert(unit_size(0) == 0x400 && unit_size(1) == 0x10_0000 && unit_size(2) == 0x4000_0000
        && unit_size(3) == 0x100_0000_0000 && unit_size(4) == 0x4_0000_0000_0000);
    if index == 0 {
        assert(unit_index(value, 0) == 0);
    } else if index == 1 {
        assert(unit_index(value, 1) == 1);
        assert(unit_index(value, 0) == 1);
    } else if index == 2 {
        assert(unit_index(value, 2) == 2);
        assert(unit_index(value, 1) == 2);
        assert(unit_index(value, 0) == 2);
    } else {
        assert(unit_index(value, 3) == 3);
        assert(unit_index(value, 2) == 3);
        assert(unit_index(value, 1) == 3);
        assert(unit_index(value, 0) == 3);
    }
    assert(value / unit == count && value % unit == 0) by (nonlinear_arith)
        requires
            value == count * unit,
            unit > 0,
    ;
    assert((10 * value) / unit == 10 * count && (10 * value) % unit == 0) by (nonlinear_arith)
        requires
            value == count * unit,
            unit > 0,
    ;
    assert((10 * count) / 10 == count && (10 * count) % 10 == 0);
}

/// A time is shown in seconds below a minute, in minutes and seconds below an hour, and in hours
/// and minutes from then on. No time counts as one second.
pub proof fn durations_are_taken_apart(hours: nat, minutes: nat, seconds: nat)
    requires
        minutes < 60,
        seconds < 60,
    ensures
        duration_text(3600 * hours + 60 * minutes + seconds) == (if hours > 0 {
            decimal(hours) + " 小时 "@ + decimal(minutes) + " 分"@
        } else if minutes > 0 {
            decimal(minutes) + " 分 "@ + decimal(seconds) + " 秒"@
        } else if seconds > 0 {
            decimal(seconds) + " 秒"@
        } else {
            decimal(1) + " 秒"@
        }),
{
    let total = 3600 * hours + 60 * minutes + seconds;
    assert(total / 3600 == hours);
    assert(total / 60 == 60 * hours + minutes);
    assert(total / 60 % 60 == minutes);
    assert(total % 60 == seconds);
}

/// A task that is under way and has a speed is said to need the whole seconds in which the missing
/// bytes come at that speed. Without a speed, or with nothing missing, nothing is said of it, and
/// every other task says what has become of it.
pub proof fn remaining_time_follows_the_speed(
    status: TaskStatus,
    speed: nat,
    seconds: nat,
    rest: nat,
)
    requires
        rest < speed,
        speed * seconds + rest > 0,
        status == TaskStatus::Queued || status == TaskStatus::Resolving || status
            == TaskStatus::Downloading || status == TaskStatus::Verifying,
    ensures
        eta_text(status, speed * seconds + rest, speed) == "剩余 "@ + duration_text(seconds),
        eta_text(status, speed * seconds + rest, 0) == "计算中"@,
        eta_text(status, 0, speed) == "计算中"@,
        eta_text(TaskStatus::Paused, seconds, speed) == "已暂停"@,
        eta_text(TaskStatus::Completed, seconds, speed) == "已完成"@,
        eta_text(TaskStatus::Failed, seconds, speed) == "失败"@,
        eta_text(TaskStatus::Cancelled, seconds, speed) == "已取消"@,
{
    assert((speed * seconds + rest) / speed == seconds) by (nonlinear_arith)
        requires
            rest < speed,
    ;
}

/// A number is rounded to the nearest whole number, and from halfway between two to the even one.
pub proof fn halves_are_rounded_to_even(q: nat, r: nat, d: nat)
    requires
        r < d,
    ensures
        2 * r < d ==> nearest(q * d + r, d) == q,
        2 * r > d ==> nearest(q * d + r, d) == q + 1,
        2 * r == d ==> nearest(q * d + r, d) % 2 == 0 && (nearest(q * d + r, d) == q || nearest(
            q * d + r,
            d,
        ) == q + 1),
{
    assert((q * d + r) / d == q && (q * d + r) % d == r) by (nonlinear_arith)
        requires
            r < d,
    ;
}

} // verus!
