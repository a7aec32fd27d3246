use vstd::prelude::*;

verus! {

/// How a graphics mode lays out a pixel.
#[derive(Clone, Copy, Debug, PartialEq, Eq)]
pub enum PixelFormat {
    RGBX,
    BGRX,
    BitMask,
    BltOnly,
}

/// What the firmware tells of a graphics mode.
#[derive(Clone, Copy, Debug, PartialEq, Eq)]
pub struct ModeInformation {
    pub horizontal_resolution: u32,
    pub vertical_resolution: u32,
    pub pixel_format: PixelFormat,
}

/// Whether a mode has 32-bit pixels.
pub open spec fn direct_color(m: ModeInformation) -> bool {
    m.pixel_format == PixelFormat::RGBX || m.pixel_format == PixelFormat::BGRX
}

/// The graphics mode chosen among `modes` from index `i` on, when `mode`
/// is the choice so far: modes without 32-bit pixels and modes larger than
/// 1920x1080 in both directions are skipped, 1920x1080 is taken at once,
/// and otherwise the last mode that fits wins.
pub open spec fn graphics_choice(modes: Seq<ModeInformation>, i: int, mode: int) -> int
    decreases modes.len() - i,
{
    if i < 0 || i >= modes.len() {
        mode
    } else {
        let m = modes[i];
        if !direct_color(m) {
            graphics_choice(modes, i + 1, mode)
        } else if m.horizontal_resolution > 1920 && m.vertical_resolution > 1080 {
            graphics_choice(modes, i + 1, mode)
        } else if m.horizontal_resolution == 1920 && m.vertical_resolution == 1080 {
            i
        } else {
            graphics_choice(modes, i + 1, i)
        }
    }
}

/// Whether a mode settles the choice of graphics mode at once: 1920x1080
/// with 32-bit pixels, after which no further mode is queried.
pub fn is_full_hd(m: &ModeInformation) -> (b: bool)
    ensures
        b == (direct_color(*m) && m.horizontal_resolution == 1920 && m.vertical_resolution == 1080),
{
    let direct = match m.pixel_format {
        PixelFormat::RGBX | PixelFormat::BGRX => true,
        _ => false,
    };
    direct && m.horizontal_resolution == 1920 && m.vertical_resolution == 1080
}

/// Chooses the graphics mode to set: 1920x1080 if it is offered with 32-bit
/// pixels, else the last mode with 32-bit pixels that is not larger in both
/// directions, else mode 0.
pub fn choose_graphics_mode(modes: &Vec<ModeInformation>) -> (mode: u32)
    requires
        modes@.len() <= u32::MAX,
    ensures
        mode == graphics_choice(modes@, 0, 0),
{
    let mut mode: u32 = 0;
    let mut i: usize = 0;
    while i < modes.len()
        invariant
            modes@.len() <= u32::MAX,
            0 <= i <= modes@.len(),
            mode < modes@.len() || mode == 0,
            graphics_choice(modes@, i as int, mode as int) == graphics_choice(modes@, 0, 0),
        decreases modes@.len() - i,
    {
        let info = modes[i];
        let direct = match info.pixel_format {
            PixelFormat::RGBX => true,
            PixelFormat::BGRX => true,
            _ => false,
        };
        if direct {
            if info.horizontal_resolution > 1920 && info.vertical_resolution > 1080 {
            } else if info.horizontal_resolution == 1920 && info.vertical_resolution == 1080 {
                return i as u32;
            } else {
                mode = i as u32;
            }
        }
        i = i + 1;
    }
    mode
}

/// The choice among the first `n` modes of the largest mode with BGRX
/// pixels: a mode wins when it is at least as wide and as high as the best
/// so far; the result is the index and the size of the best mode.
pub open spec fn largest_bgrx(modes: Seq<Option<ModeInformation>>, n: int) -> (Option<int>, int, int)
    decreases n,
{
    if n <= 0 {
        (None, 0, 0)
    } else {
        let prev = largest_bgrx(modes, n - 1);
        match modes[n - 1] {
            Some(m) => if m.horizontal_resolution >= prev.1 && m.vertical_resolution >= prev.2
                && m.pixel_format == PixelFormat::BGRX {
                (Some(n - 1), m.horizontal_resolution as int, m.vertical_resolution as int)
            } else {
                prev
            },
            None => prev,
        }
    }
}

/// Chooses the largest mode with BGRX pixels among the modes that could be
/// queried (`None` for a query that failed); `None` when there is none.
pub fn choose_largest_bgrx_mode(modes: &Vec<Option<ModeInformation>>) -> (mode: Option<u32>)
    requires
        modes@.len() <= u32::MAX,
    ensures
        mode matches Some(i) ==> largest_bgrx(modes@, modes@.len() as int).0 == Some(i as int),
        mode is None ==> largest_bgrx(modes@, modes@.len() as int).0 is None,
{
    let mut max_i: Option<u32> = None;
    let mut max_w: u32 = 0;
    let mut max_h: u32 = 0;
    let mut i: usize = 0;
    while i < modes.len()
        invariant
            modes@.len() <= u32::MAX,
            0 <= i <= modes@.len(),
            ({
                let c = largest_bgrx(modes@, i as int);
                &&& max_w == c.1
                &&& max_h == c.2
                &&& (max_i matches Some(j) ==> c.0 == Some(j as int))
                &&& (max_i is None ==> c.0 is None)
            }),
        decreases modes@.len() - i,
    {
        match modes[i] {
            Some(m) => {
                let bgrx = match m.pixel_format {
                    PixelFormat::BGRX => true,
                    _ => false,
                };
                if m.horizontal_resolution >= max_w && m.vertical_resolution >= max_h && bgrx {
                    max_i = Some(i as u32);
                    max_w = m.horizontal_resolution;
                    max_h = m.vertical_resolution;
                }
            },
            None => {},
        }
        i = i + 1;
    }
    max_i
}

/// The choice among the first `n` text modes of the largest one: a mode
/// wins when it has at least as many columns and rows as the best so far;
/// the result is the index, the columns and the rows of the best mode.
pub open spec fn largest_text(modes: Seq<Option<(usize, usize)>>, n: int) -> (Option<int>, int, int)
    decreases n,
{
    if n <= 0 {
        (None, 0, 0)
    } else {
        let prev = largest_text(modes, n - 1);
        match modes[n - 1] {
            Some(m) => if m.0 >= prev.1 && m.1 >= prev.2 {
                (Some(n - 1), m.0 as int, m.1 as int)
            } else {
                prev
            },
            None => prev,
        }
    }
}

/// Chooses the text mode with the most columns and rows among the modes
/// that could be queried (`None` for a query that failed).
pub fn choose_text_mode(modes: &Vec<Option<(usize, usize)>>) -> (mode: Option<usize>)
    ensures
        mode matches Some(i) ==> largest_text(modes@, modes@.len() as int).0 == Some(i as int),
        mode is None ==> largest_text(modes@, modes@.len() as int).0 is None,
        mode is None <==> (forall|j: int| 0 <= j < modes@.len() ==> (#[trigger] modes@[j]) is None),
        mode matches Some(i) ==> i < modes@.len() && modes@[i as int] is Some && (forall|j: int|
            i < j < modes@.len() ==> !(#[trigger] modes@[j] matches Some(d) && d.0
                >= modes@[i as int]->Some_0.0 && d.1 >= modes@[i as int]->Some_0.1)),
{
    let mut max_i: Option<usize> = None;
    let mut max_w: usize = 0;
    let mut max_h: usize = 0;
    let mut i: usize = 0;
    while i < modes.len()
        invariant
            0 <= i <= modes@.len(),
            ({
                let c = largest_text(modes@, i as int);
                &&& max_w == c.1
                &&& max_h == c.2
                &&& (max_i matches Some(j) ==> c.0 == Some(j as int))
                &&& (max_i is None ==> c.0 is None)
            }),
        decreases modes@.len() - i,
    {
        match modes[i] {
            Some(m) => {
                if m.0 >= max_w && m.1 >= max_h {
                    max_i = Some(i);
                    max_w = m.0;
                    max_h = m.1;
                }
            },
            None => {},
        }
        i = i + 1;
    }
    proof {
        lemma_largest_text_facts(modes@, modes@.len() as int);
    }
    max_i
}

/// The best text mode among the first `n`: none exactly when no mode could
/// be queried, and otherwise a queried mode whose size is recorded, that no
/// later mode among the first `n` matches or beats in both directions.
proof fn lemma_largest_text_facts(modes: Seq<Option<(usize, usize)>>, n: int)
    requires
        0 <= n <= modes.len(),
    ensures
        ({
            let c = largest_text(modes, n);
            &&& c.0 is None <==> (forall|j: int| 0 <= j < n ==> (#[trigger] modes[j]) is None)
            &&& c.0 is None ==> c.1 == 0 && c.2 == 0
            &&& c.0 matches Some(i) ==> 0 <= i < n && modes[i] is Some && modes[i]->Some_0.0 == c.1
                && modes[i]->Some_0.1 == c.2 && (forall|j: int|
                i < j < n ==> !(#[trigger] modes[j] matches Some(d) && d.0 >= c.1 && d.1 >= c.2))
        }),
    decreases n,
{
    if n > 0 {
        lemma_largest_text_facts(modes, n - 1);
        let prev = largest_text(modes, n - 1);
        if prev.0 is None && modes[n - 1] is None {
            assert forall|j: int| 0 <= j < n implies (#[trigger] modes[j]) is None by {}
        }
        if modes[n - 1] is Some && largest_text(modes, n).0 is None {
            assert(false);
        }
    }
}

/// Adding one more entry `m` past the first `n`, whatever it is, leaves the
/// choice among the first `n` as it was.
proof fn lemma_largest_text_prefix(modes: Seq<Option<(usize, usize)>>, m: Option<(usize, usize)>, n: int)
    requires
        0 <= n <= modes.len(),
    ensures
        largest_text(modes.push(m), n) == largest_text(modes, n),
    decreases n,
{
    if n > 0 {
        lemma_largest_text_prefix(modes, m, n - 1);
        assert(modes.push(m)[n - 1] == modes[n - 1]);
    }
}

/// How the choice of text mode grows with the list of modes: with no mode
/// nothing is chosen; a failed query changes nothing; a queried mode is
/// chosen when nothing was chosen before or when it has at least as many
/// columns and at least as many rows as the mode chosen so far, and
/// otherwise the earlier choice stands.
pub proof fn lemma_text_mode_choice(modes: Seq<Option<(usize, usize)>>, m: Option<(usize, usize)>)
    ensures
        largest_text(Seq::<Option<(usize, usize)>>::empty(), 0).0 is None,
        ({
            let n = modes.len() as int;
            let c = largest_text(modes, n).0;
            let c2 = largest_text(modes.push(m), n + 1).0;
            &&& c matches Some(i) ==> 0 <= i < n && modes[i] is Some
            &&& c2 == match m {
                None => c,
                Some(d) => match c {
                    None => Some(n),
                    Some(i) => if d.0 >= modes[i]->Some_0.0 && d.1 >= modes[i]->Some_0.1 {
                        Some(n)
                    } else {
                        c
                    },
                },
            }
        }),
{
    let n = modes.len() as int;
    lemma_largest_text_facts(modes, n);
    lemma_largest_text_prefix(modes, m, n);
    let s = modes.push(m);
    assert(s[n] == m);
    let prev = largest_text(modes, n);
    assert(largest_text(s, n + 1) == match m {
        Some(d) => if d.0 >= prev.1 && d.1 >= prev.2 {
            (Some(n), d.0 as int, d.1 as int)
        } else {
            prev
        },
        None => prev,
    });
    if let Some(i) = prev.0 {
        assert(modes[i]->Some_0.0 == prev.1);
        assert(modes[i]->Some_0.1 == prev.2);
    }
}

/// Whether a graphics mode may be chosen: it has 32-bit pixels and is not
/// larger than 1920x1080 in both directions.
pub open spec fn acceptable(m: ModeInformation) -> bool {
    direct_color(m) && !(m.horizontal_resolution > 1920 && m.vertical_resolution > 1080)
}

/// The chosen graphics mode is an acceptable mode, unless no mode after
/// the initial choice is acceptable and the initial choice stands; a
/// 1920x1080 mode with 32-bit pixels is chosen when there is one.
pub proof fn lemma_graphics_choice(modes: Seq<ModeInformation>, i: int, mode: int)
    requires
        0 <= i <= modes.len(),
    ensures
        graphics_choice(modes, i, mode) == mode || (i <= graphics_choice(modes, i, mode)
            < modes.len() && acceptable(modes[graphics_choice(modes, i, mode)])),
        (exists|j: int|
            i <= j < modes.len() && acceptable(#[trigger] modes[j])) ==> graphics_choice(
            modes,
            i,
            mode,
        ) != mode || acceptable(modes[mode]),
        forall|j: int|
            i <= j < modes.len() && #[trigger] acceptable(modes[j])
                && modes[j].horizontal_resolution == 1920 && modes[j].vertical_resolution
                == 1080 ==> acceptable(modes[graphics_choice(modes, i, mode)])
                && modes[graphics_choice(modes, i, mode)].horizontal_resolution == 1920
                && modes[graphics_choice(modes, i, mode)].vertical_resolution == 1080,
    decreases modes.len() - i,
{
    if i < modes.len() {
        let m = modes[i];
        if !acceptable(m) {
            lemma_graphics_choice(modes, i + 1, mode);
        } else if m.horizontal_resolution == 1920 && m.vertical_resolution == 1080 {
        } else {
            lemma_graphics_choice(modes, i + 1, i);
        }
    }
}

} // verus!
