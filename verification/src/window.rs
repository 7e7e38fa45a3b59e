//! The place of the window, and the start with the system.

use vstd::prelude::*;

verus! {

/// The width of the window.
pub const WIN_WIDTH: i32 = 650;

/// The height of the window.
pub const WIN_HEIGHT: i32 = 750;

/// How far above the lower edge of the work area the window ends.
pub const WIN_MARGIN: i32 = 10;

/// Half of a number, without its fraction.
pub open spec fn half(n: int) -> int {
    if n >= 0 {
        n / 2
    } else {
        -((-n) / 2)
    }
}

/// The number can be stored in 32 bits.
pub open spec fn is_small(n: int) -> bool {
    i32::MIN <= n <= i32::MAX
}

/// Where the window goes in a work area with the edges left, top, right and bottom: to
/// the middle between left and right, and just above the bottom.
pub open spec fn position_in(left: int, right: int, bottom: int) -> (int, int) {
    (left + half(right - left - WIN_WIDTH), bottom - WIN_HEIGHT - WIN_MARGIN)
}

/// The position can be reckoned in 32 bits.
pub open spec fn is_placeable(left: int, right: int, bottom: int) -> bool {
    &&& is_small(right - left)
    &&& is_small(right - left - WIN_WIDTH)
    &&& is_small(position_in(left, right, bottom).0)
    &&& is_small(position_in(left, right, bottom).1)
}

/// Whether the window can be placed in `work_area`: left, top, right and bottom edge.
pub fn can_place(work_area: [i32; 4]) -> (r: bool)
    ensures
        r == is_placeable(work_area@[0] as int, work_area@[2] as int, work_area@[3] as int),
{
    let left: i64 = work_area[0] as i64;
    let width: i64 = work_area[2] as i64 - left;
    let spare: i64 = width - WIN_WIDTH as i64;
    let inset: i64 = spare / 2;
    let x: i64 = left + inset;
    let y: i64 = work_area[3] as i64 - WIN_HEIGHT as i64 - WIN_MARGIN as i64;
    -0x8000_0000 <= width && width <= 0x7FFF_FFFF && -0x8000_0000 <= spare && -0x8000_0000 <= x && x
        <= 0x7FFF_FFFF && -0x8000_0000 <= y
}

/// The position of the window in `work_area`: left, top, right and bottom edge.
pub fn window_position(work_area: [i32; 4]) -> (r: (i32, i32))
    requires
        is_placeable(work_area@[0] as int, work_area@[2] as int, work_area@[3] as int),
    ensures
        (r.0 as int, r.1 as int) == position_in(
            work_area@[0] as int,
            work_area@[2] as int,
            work_area@[3] as int,
        ),
{
    let width: i32 = work_area[2] - work_area[0];
    let spare: i32 = width - WIN_WIDTH;
    let inset: i32 = spare / 2;
    (work_area[0] + inset, work_area[3] - WIN_HEIGHT - WIN_MARGIN)
}

/// What is to be done to the list of the programs that start with the system.
#[derive(Debug, PartialEq, Eq)]
pub enum AutoStart {
    /// Enter the program, with the path of its file.
    Enter(String),
    /// Take the program out.
    TakeOut,
    /// Leave the list as it is.
    Leave,
}

/// What is to be done to switch the start with the system on or off. `exe_path` is the
/// path of the program's file, if it is known.
pub fn set_auto_start(enable: bool, exe_path: Option<String>) -> (action: AutoStart)
    ensures
        enable ==> action == (match exe_path {
            Some(path) => AutoStart::Enter(path),
            None => AutoStart::Leave,
        }),
        !enable ==> action == AutoStart::TakeOut,
{
    if enable {
        match exe_path {
            Some(path) => AutoStart::Enter(path),
            None => AutoStart::Leave,
        }
    } else {
        AutoStart::TakeOut
    }
}

/// In a work area that is wide and high enough for it, the window stands whole, in the
/// middle to within one pixel, and its lower edge is just above that of the work area.
pub proof fn law_window_in_the_middle(left: int, top: int, right: int, bottom: int)
    requires
        right - left >= WIN_WIDTH,
        bottom - top >= WIN_HEIGHT + WIN_MARGIN,
    ensures
        ({
            let (x, y) = position_in(left, right, bottom);
            &&& left <= x && x + WIN_WIDTH <= right
            &&& top <= y && y + WIN_HEIGHT + WIN_MARGIN == bottom
            &&& 0 <= (right - (x + WIN_WIDTH)) - (x - left) <= 1
        }),
{
}

/// In any work area, the window leaves as much room to its left as to its right, or hangs
/// over as much, to within one pixel, which then is to the right; and its lower edge is
/// just above that of the work area.
pub proof fn law_window_position(left: int, right: int, bottom: int)
    ensures
        ({
            let (x, y) = position_in(left, right, bottom);
            let before = x - left;
            let after = right - (x + 650);
            &&& y + 750 + 10 == bottom
            &&& right - left >= 650 ==> 0 <= before && 0 <= after - before <= 1
            &&& right - left <= 650 ==> before <= 0 && 0 <= before - after <= 1
        }),
{
}

/// The window can be placed in every work area whose edges and width have room enough in
/// 32 bits.
pub proof fn law_placeable(left: int, right: int, bottom: int)
    ensures
        -0x3FFF_0000 <= left <= 0x3FFF_0000 && -0x3FFF_0000 <= right <= 0x3FFF_0000 && -0x3FFF_0000
            <= bottom <= 0x3FFF_0000 ==> is_placeable(left, right, bottom),
        is_placeable(left, right, bottom) <==> -0x8000_0000 + 650 <= right - left <= 0x7FFF_FFFF
            && -0x8000_0000 <= position_in(left, right, bottom).0 <= 0x7FFF_FFFF && -0x8000_0000
            + 760 <= bottom <= 0x7FFF_FFFF + 760,
{
}

/// Switching the start with the system on enters the program under just its path, where it
/// is known, and otherwise leaves the list alone; switching it off takes the program out.
pub proof fn law_auto_start(enable: bool, exe_path: Option<String>, action: AutoStart)
    requires
        call_ensures(set_auto_start, (enable, exe_path), action),
    ensures
        enable && exe_path is Some ==> (action matches AutoStart::Enter(path) && path@
            == exe_path->0@),
        enable && exe_path is None ==> action is Leave,
        !enable ==> action is TakeOut,
{
}

} // verus!
