//! Platform seams for the browser shell and the renderer: presentation,
//! input, storage roots, networking and timers. The Linux desktop backends
//! live with the application; the Kamelot backends here are scaffolds whose
//! storage roots are fixed.
use vstd::prelude::*;

use crate::framebuffer::Framebuffer;
use crate::text::{chars_of, extend_chars, lit, string_of};

verus! {

// ── Shell ────────────────────────────────────────────────────────────────────

pub trait DisplayBackend {
    fn present(&mut self, fb: &Framebuffer) -> Result<(), String>;
}

pub trait InputBackend {
    type Event;

    fn poll_event(&mut self) -> Result<Option<Self::Event>, String>;
}

pub trait FileSystemBackend {
    fn data_dir(&self) -> String;

    fn downloads_dir(&self) -> String;
}

pub trait NetworkBackend {
    fn name(&self) -> &'static str;
}

pub trait TimerBackend {
    fn sleep(&self, millis: u64);
}

/// The Kamelot OS backend (a scaffold: storage roots only).
pub struct KamelotBackend;

impl KamelotBackend {
    pub fn new() -> (b: Self)
        ensures
            b == KamelotBackend,
    {
        KamelotBackend
    }
}

impl FileSystemBackend for KamelotBackend {
    fn data_dir(&self) -> (d: String)
        ensures
            d@ == "/kmfs/rashamon-arc"@,
    {
        "/kmfs/rashamon-arc".to_string()
    }

    fn downloads_dir(&self) -> (d: String)
        ensures
            d@ == "/kmfs/rashamon-arc/downloads"@,
    {
        "/kmfs/rashamon-arc/downloads".to_string()
    }
}

impl NetworkBackend for KamelotBackend {
    fn name(&self) -> (n: &'static str)
        ensures
            n@ == "kamelot-syscall-network-stub"@,
    {
        "kamelot-syscall-network-stub"
    }
}

impl TimerBackend for KamelotBackend {
    /// Future Kamelot syscall hook; a no-op for now.
    fn sleep(&self, millis: u64) {
    }
}

// ── Storage roots on Linux ───────────────────────────────────────────────────

/// `base` joined with a relative path component, as `Path::join` does it: no
/// separator after an empty base or one that already ends in `/`.
pub open spec fn spec_join(base: Seq<char>, comp: Seq<char>) -> Seq<char> {
    if base.len() == 0 {
        comp
    } else if base.last() == '/' {
        base + comp
    } else {
        base + seq!['/'] + comp
    }
}

/// The data directory: `$XDG_DATA_HOME/rashamon-arc`, else
/// `$HOME/.local/share/rashamon-arc`, else `./rashamon-arc`.
pub open spec fn spec_linux_data_dir(xdg_data_home: Option<Seq<char>>, home: Option<Seq<char>>) -> Seq<char> {
    let base = match xdg_data_home {
        Some(x) => x,
        None => match home {
            Some(h) => spec_join(spec_join(h, ".local"@), "share"@),
            None => "."@,
        },
    };
    spec_join(base, "rashamon-arc"@)
}

/// The downloads directory: `$HOME/Downloads/RashamonArc`, else
/// `./Downloads/RashamonArc`.
pub open spec fn spec_linux_downloads_dir(home: Option<Seq<char>>) -> Seq<char> {
    let base = match home {
        Some(h) => h,
        None => "."@,
    };
    spec_join(spec_join(base, "Downloads"@), "RashamonArc"@)
}

fn join_chars(base: &Vec<char>, comp: &str) -> (p: Vec<char>)
    ensures
        p@ == spec_join(base@, comp@),
{
    let mut out: Vec<char> = Vec::new();
    extend_chars(&mut out, base);
    let n = base.len();
    if n > 0 && base[n - 1] != '/' {
        out.push('/');
    }
    extend_chars(&mut out, &chars_of(comp));
    proof {
        if n == 0 {
            assert(out@ =~= comp@);
        }
    }
    out
}

/// The data directory for the values of `XDG_DATA_HOME` and `HOME` (each
/// `None` when unset).
pub fn linux_data_dir(xdg_data_home: Option<&str>, home: Option<&str>) -> (d: String)
    ensures
        d@ == spec_linux_data_dir(
            match xdg_data_home {
                Some(x) => Some(x@),
                None => None,
            },
            match home {
                Some(h) => Some(h@),
                None => None,
            },
        ),
{
    let base = match xdg_data_home {
        Some(x) => chars_of(x),
        None => match home {
            Some(h) => join_chars(&join_chars(&chars_of(h), ".local"), "share"),
            None => lit("."),
        },
    };
    string_of(&join_chars(&base, "rashamon-arc"))
}

/// The downloads directory for the value of `HOME` (`None` when unset).
pub fn linux_downloads_dir(home: Option<&str>) -> (d: String)
    ensures
        d@ == spec_linux_downloads_dir(
            match home {
                Some(h) => Some(h@),
                None => None,
            },
        ),
{
    let base = match home {
        Some(h) => chars_of(h),
        None => lit("."),
    };
    string_of(&join_chars(&join_chars(&base, "Downloads"), "RashamonArc"))
}

// ── Renderer ─────────────────────────────────────────────────────────────────

pub trait RendererFileSystem {
    fn data_dir(&self) -> String;

    fn downloads_dir(&self) -> String;
}

pub trait RendererNetwork {
    fn name(&self) -> &'static str;
}

/// The renderer's Kamelot OS platform (a scaffold: storage roots only).
pub struct KamelotPlatform;

impl RendererFileSystem for KamelotPlatform {
    fn data_dir(&self) -> (d: String)
        ensures
            d@ == "/kmfs/rashamon-arc"@,
    {
        "/kmfs/rashamon-arc".to_string()
    }

    fn downloads_dir(&self) -> (d: String)
        ensures
            d@ == "/kmfs/rashamon-arc/downloads"@,
    {
        "/kmfs/rashamon-arc/downloads".to_string()
    }
}

impl RendererNetwork for KamelotPlatform {
    fn name(&self) -> (n: &'static str)
        ensures
            n@ == "kamelot-network-syscall-stub"@,
    {
        "kamelot-network-syscall-stub"
    }
}

// ── Display modes ────────────────────────────────────────────────────────────

/// Position of the first mode at or after `i` with exactly the requested
/// width and height.
pub open spec fn exact_mode_from(modes: Seq<(u16, u16)>, w: u32, h: u32, i: int) -> Option<int>
    decreases modes.len() - i,
{
    if i < 0 || i >= modes.len() {
        None
    } else if modes[i].0 as u32 == w && modes[i].1 as u32 == h {
        Some(i)
    } else {
        exact_mode_from(modes, w, h, i + 1)
    }
}

/// The display mode to set among a connector's modes, given as (width,
/// height): the first with the requested size, else the first mode (the one
/// the screen prefers); `None` when there are no modes.
pub open spec fn spec_pick_mode(modes: Seq<(u16, u16)>, w: u32, h: u32) -> Option<int> {
    match exact_mode_from(modes, w, h, 0) {
        Some(i) => Some(i),
        None => if modes.len() > 0 {
            Some(0)
        } else {
            None
        },
    }
}

pub fn pick_mode(modes: &[(u16, u16)], w: u32, h: u32) -> (r: Option<usize>)
    ensures
        match r {
            Some(i) => spec_pick_mode(modes@, w, h) == Some(i as int),
            None => spec_pick_mode(modes@, w, h) is None,
        },
{
    let mut i: usize = 0;
    while i < modes.len()
        invariant
            i <= modes@.len(),
            exact_mode_from(modes@, w, h, 0) == exact_mode_from(modes@, w, h, i as int),
        decreases modes.len() - i,
    {
        let (mw, mh) = modes[i];
        if mw as u32 == w && mh as u32 == h {
            return Some(i);
        }
        i = i + 1;
    }
    if modes.len() > 0 {
        Some(0)
    } else {
        None
    }
}

} // verus!
