//! Naming and reading the graphics adapter from what the system reports.

use vstd::prelude::*;
use crate::text::{
    ascii_lower, chars_of, contains_seq, find_chars, is_ascii_text, lemma_trim_keeps_ascii,
    lowercase_of, occurs_at, same_text, string_of, to_lowercase, trim, trim_chars,
};

verus! {

/// A DRM directory entry that is a card itself (`cardN`), not one of its
/// connectors (`cardN-eDP-1`).
pub open spec fn is_card_name(name: Seq<char>) -> bool {
    name.len() >= 4 && name.take(4) == "card"@ && !name.contains('-')
}

/// Whether a `/sys/class/drm` entry names a card.
pub fn is_card_entry(name: &str) -> (r: bool)
    ensures
        r == is_card_name(name@),
{
    let v = chars_of(name);
    proof {
        reveal_strlit("card");
    }
    if v.len() < 4 || v[0] != 'c' || v[1] != 'a' || v[2] != 'r' || v[3] != 'd' {
        proof {
            if v@.len() >= 4 {
                assert(v@.take(4)[0] == v@[0] && v@.take(4)[1] == v@[1]);
                assert(v@.take(4)[2] == v@[2] && v@.take(4)[3] == v@[3]);
            }
        }
        return false;
    }
    assert(v@.take(4) =~= "card"@);
    let mut k: usize = 0;
    while k < v.len()
        invariant
            k <= v@.len(),
            v@ == name@,
            v@.take(4) == "card"@,
            forall|j: int| 0 <= j < k ==> v@[j] != '-',
        decreases v@.len() - k,
    {
        if v[k] == '-' {
            assert(v@[k as int] == '-');
            assert(v@.contains('-'));
            return false;
        }
        k += 1;
    }
    true
}

/// The vendor of a PCI vendor id as sysfs prints it (read, trimmed and
/// lower-cased); a generic name for an unknown or unreadable id.
pub open spec fn vendor_label(vendor_id: Option<Seq<char>>) -> Seq<char> {
    match vendor_id {
        Some(raw) => vendor_of_id(lowercase_of(trim(raw))),
        None => "GPU"@,
    }
}

/// The vendor of a lower-case PCI vendor id; a generic name for an unknown one.
pub open spec fn vendor_of_id(id: Seq<char>) -> Seq<char> {
    if id == "0x1002"@ {
        "AMD"@
    } else if id == "0x8086"@ {
        "Intel"@
    } else if id == "0x10de"@ {
        "NVIDIA"@
    } else {
        "GPU"@
    }
}

/// The vendor named by the contents of a card's `vendor` file.
pub fn vendor_name(vendor_id: Option<&str>) -> (r: &'static str)
    ensures
        r@ == vendor_label(
            match vendor_id {
                Some(s) => Some(s@),
                None => None,
            },
        ),
        vendor_id matches Some(raw) ==> (is_ascii_text(raw@) ==> r@ == vendor_of_id(
            ascii_lower(trim(raw@)),
        )),
{
    match vendor_id {
        Some(raw) => {
            let v = chars_of(raw);
            let t = trim_chars(v.as_slice());
            let ts = string_of(t.as_slice());
            proof {
                if is_ascii_text(raw@) {
                    lemma_trim_keeps_ascii(raw@);
                }
            }
            let id = to_lowercase(ts.as_str());
            if same_text(id.as_str(), "0x1002") {
                "AMD"
            } else if same_text(id.as_str(), "0x8086") {
                "Intel"
            } else if same_text(id.as_str(), "0x10de") {
                "NVIDIA"
            } else {
                "GPU"
            }
        },
        None => "GPU",
    }
}

/// How a card is named in reports: its vendor, then the card's entry name in
/// parentheses.
pub fn card_label(vendor: &str, card: &str) -> (r: String)
    ensures
        r@ == vendor@ + " ("@ + card@ + ")"@,
{
    let mut r = String::from_str(vendor);
    r.append(" (");
    r.append(card);
    r.append(")");
    r
}

/// The key under which `ioreg` reports the accelerator's utilization.
pub open spec fn utilization_key() -> Seq<char> {
    "\"Device Utilization %\"="@
}

/// A character that may belong to the utilization number.
pub open spec fn is_number_char(c: char) -> bool {
    (48 <= (c as u32) <= 57) || c == '.'
}

/// The longest prefix made only of number characters.
pub open spec fn number_prefix(s: Seq<char>) -> Seq<char>
    decreases s.len(),
{
    if s.len() > 0 && is_number_char(s[0]) {
        seq![s[0]] + number_prefix(s.drop_first())
    } else {
        Seq::<char>::empty()
    }
}

proof fn lemma_number_prefix_at(s: Seq<char>, k: int)
    requires
        0 <= k <= s.len(),
        forall|j: int| 0 <= j < k ==> is_number_char(s[j]),
        k == s.len() || !is_number_char(s[k]),
    ensures
        number_prefix(s) == s.take(k),
    decreases k,
{
    if k == 0 {
        assert(s.take(0) =~= Seq::<char>::empty());
    } else {
        let t = s.drop_first();
        assert forall|j: int| 0 <= j < k - 1 implies is_number_char(t[j]) by {
            assert(t[j] == s[j + 1]);
        }
        if k < s.len() {
            assert(t[k - 1] == s[k]);
        }
        lemma_number_prefix_at(t, k - 1);
        assert(seq![s[0]] + t.take(k - 1) =~= s.take(k));
    }
}

/// The text of the utilization number in an `ioreg` dump: the number
/// characters right after the first occurrence of the key; nothing when the
/// key does not occur. The number itself is read by the caller.
pub fn ioreg_utilization_text(dump: &str) -> (r: Option<String>)
    ensures
        !contains_seq(dump@, utilization_key()) ==> r is None,
        r matches Some(t) ==> exists|i: int|
            #![trigger occurs_at(dump@, utilization_key(), i)]
            occurs_at(dump@, utilization_key(), i) && (forall|j: int| 0 <= j < i ==> !occurs_at(dump@, utilization_key(), j))
                && t@ == number_prefix(dump@.skip(i + utilization_key().len())),
        contains_seq(dump@, utilization_key()) ==> r is Some,
{
    let hay = chars_of(dump);
    let key = chars_of("\"Device Utilization %\"=");
    match find_chars(hay.as_slice(), key.as_slice()) {
        None => None,
        Some(i) => {
            let hl = hay.len();
            assert(i + key@.len() <= hl);
            let start = i + key.len();
            let ghost rest = hay@.skip(start as int);
            let mut k: usize = start;
            while k < hay.len() && ((48 <= (hay[k] as u32) && (hay[k] as u32) <= 57) || hay[k] == '.')
                invariant
                    start <= k <= hay@.len(),
                    rest == hay@.skip(start as int),
                    forall|j: int| 0 <= j < k - start ==> is_number_char(#[trigger] rest[j]),
                decreases hay@.len() - k,
            {
                assert(rest[k - start] == hay@[k as int]);
                k += 1;
            }
            proof {
                if k < hay@.len() {
                    assert(rest[k - start] == hay@[k as int]);
                }
                lemma_number_prefix_at(rest, k - start);
            }
            let mut out: Vec<char> = Vec::new();
            let mut m: usize = start;
            while m < k
                invariant
                    start <= m <= k <= hay@.len(),
                    out@ == hay@.subrange(start as int, m as int),
                decreases k - m,
            {
                out.push(hay[m]);
                m += 1;
                assert(out@ =~= hay@.subrange(start as int, m as int));
            }
            assert(out@ =~= rest.take(k - start));
            assert(key@ == utilization_key());
            assert(hay@ == dump@);
            assert(occurs_at(dump@, utilization_key(), i as int));
            let r = string_of(out.as_slice());
            assert(r@ == number_prefix(dump@.skip(i + utilization_key().len())));
            Some(r)
        },
    }
}

// ───────────── choosing the source of the GPU reading ─────────────

/// Where the GPU utilization is read from for the whole run.
#[derive(Debug, Clone, Copy, PartialEq, Eq, Structural)]
pub enum BackendKind {
    /// The first NVIDIA device, through NVML.
    Nvidia,
    /// A DRM card's `gpu_busy_percent` file (Linux).
    LinuxSysfs,
    /// The GPU engine performance counter (Windows).
    WindowsCounter,
    /// The performance counter could not be opened (Windows): the metric stays
    /// at zero for the whole run, and the harness says so aloud.
    CounterMissing,
    /// The integrated GPU through `ioreg` (macOS).
    MacOsIoreg,
    /// No source of the metric.
    Unavailable,
}

/// A name reported by a system tool: the trimmed output, or the fallback when
/// nothing (or only white space) came back.
pub open spec fn reported_or(raw: Option<Seq<char>>, fallback: Seq<char>) -> Seq<char> {
    match raw {
        Some(out) => if trim(out).len() > 0 {
            trim(out)
        } else {
            fallback
        },
        None => fallback,
    }
}

/// The name of the Apple chip, from the trimmed output of `sysctl`.
pub open spec fn apple_gpu_name(raw: Option<Seq<char>>) -> Seq<char> {
    match raw {
        Some(out) => if trim(out).len() > 0 {
            trim(out) + " (Apple integrated GPU)"@
        } else {
            "Apple Silicon GPU"@
        },
        None => "Apple Silicon GPU"@,
    }
}

/// The backend and the adapter's name, by priority: an NVIDIA device
/// (named by NVML, or generically when NVML gives no name); on Linux a DRM card
/// with a busy-percent file; on Windows the performance counter, or, where it
/// cannot be opened, no metric under the adapter's name marked as such; on
/// macOS `ioreg`; otherwise nothing.
pub open spec fn backend_choice(
    os: Seq<char>,
    nvidia: Option<Option<Seq<char>>>,
    linux_card: Option<Seq<char>>,
    windows_name: Option<Seq<char>>,
    windows_counter_ok: bool,
    macos_chip: Option<Seq<char>>,
) -> (BackendKind, Seq<char>) {
    match nvidia {
        Some(named) => (
            BackendKind::Nvidia,
            match named {
                Some(n) => n,
                None => "NVIDIA GPU"@,
            },
        ),
        None => if os == "linux"@ && linux_card is Some {
            (BackendKind::LinuxSysfs, linux_card->0)
        } else if os == "windows"@ {
            let name = reported_or(windows_name, "GPU (Windows)"@);
            if windows_counter_ok {
                (BackendKind::WindowsCounter, name)
            } else {
                (BackendKind::CounterMissing, name + " (счётчик недоступен)"@)
            }
        } else if os == "macos"@ {
            (BackendKind::MacOsIoreg, apple_gpu_name(macos_chip))
        } else {
            (BackendKind::Unavailable, "GPU не обнаружен"@)
        },
    }
}

/// An NVIDIA device found by NVML is used on every system, whatever the
/// other sources report, and keeps the name NVML gave it.
pub proof fn lemma_nvidia_comes_first(
    os: Seq<char>,
    name: Seq<char>,
    linux_card: Option<Seq<char>>,
    windows_name: Option<Seq<char>>,
    windows_counter_ok: bool,
    macos_chip: Option<Seq<char>>,
)
    ensures
        backend_choice(os, Some(Some(name)), linux_card, windows_name, windows_counter_ok, macos_chip)
            == (BackendKind::Nvidia, name),
        backend_choice(os, Some(None), linux_card, windows_name, windows_counter_ok, macos_chip).0
            == BackendKind::Nvidia,
{
}

/// Each source is consulted only on its own system: what the Windows tools,
/// the macOS tool or the Linux card report changes nothing elsewhere. Without
/// an NVIDIA device, a system that is none of the three has no metric.
pub proof fn lemma_sources_belong_to_their_system(
    os: Seq<char>,
    card1: Option<Seq<char>>,
    card2: Option<Seq<char>>,
    win1: Option<Seq<char>>,
    win2: Option<Seq<char>>,
    ok1: bool,
    ok2: bool,
    mac1: Option<Seq<char>>,
    mac2: Option<Seq<char>>,
)
    ensures
        os != "windows"@ ==> backend_choice(os, None, card1, win1, ok1, mac1) == backend_choice(
            os,
            None,
            card1,
            win2,
            ok2,
            mac1,
        ),
        os != "macos"@ ==> backend_choice(os, None, card1, win1, ok1, mac1) == backend_choice(
            os,
            None,
            card1,
            win1,
            ok1,
            mac2,
        ),
        os != "linux"@ ==> backend_choice(os, None, card1, win1, ok1, mac1) == backend_choice(
            os,
            None,
            card2,
            win1,
            ok1,
            mac1,
        ),
        (os != "linux"@ && os != "windows"@ && os != "macos"@) ==> backend_choice(
            os,
            None,
            card1,
            win1,
            ok1,
            mac1,
        ).0 == BackendKind::Unavailable,
        os == "linux"@ && card1 is Some ==> backend_choice(os, None, card1, win1, ok1, mac1) == (
        BackendKind::LinuxSysfs, card1->0),
        os == "windows"@ ==> (backend_choice(os, None, card1, win1, ok1, mac1).0
            == BackendKind::CounterMissing <==> !ok1),
{
    reveal_strlit("linux");
    reveal_strlit("windows");
    reveal_strlit("macos");
    assert("linux"@ != "windows"@) by {
        assert("linux"@[0] != "windows"@[0]);
    }
    assert("linux"@ != "macos"@) by {
        assert("linux"@[0] != "macos"@[0]);
    }
    assert("windows"@ != "macos"@) by {
        assert("windows"@[0] != "macos"@[0]);
    }
}

/// The view of an optional text.
pub open spec fn opt_view(o: Option<String>) -> Option<Seq<char>> {
    match o {
        Some(s) => Some(s@),
        None => None,
    }
}

/// The trimmed text, if anything is left of it.
fn trimmed_nonempty(raw: &str) -> (r: Option<String>)
    ensures
        trim(raw@).len() > 0 ==> (r matches Some(t) && t@ == trim(raw@)),
        trim(raw@).len() == 0 ==> r is None,
{
    let v = chars_of(raw);
    let t = trim_chars(v.as_slice());
    if t.len() > 0 {
        Some(string_of(t.as_slice()))
    } else {
        None
    }
}

/// Chooses where the GPU utilization is read from, and how the adapter is
/// named. `nvidia` is what NVML found: nothing, a device without a readable
/// name, or a named device; `linux_card` the label of the first DRM card with a
/// busy-percent file; `windows_name` and `macos_chip` the raw output of the
/// tools that name the adapter; `windows_counter_ok` whether the performance
/// counter opened. Each of them is consulted only on its own system.
pub fn choose_backend(
    os: &str,
    nvidia: Option<Option<String>>,
    linux_card: Option<String>,
    windows_name: Option<String>,
    windows_counter_ok: bool,
    macos_chip: Option<String>,
) -> (r: (BackendKind, String))
    ensures
        (r.0, r.1@) == backend_choice(
            os@,
            match nvidia {
                Some(named) => Some(opt_view(named)),
                None => None,
            },
            opt_view(linux_card),
            opt_view(windows_name),
            windows_counter_ok,
            opt_view(macos_chip),
        ),
{
    proof {
        reveal_strlit("NVIDIA GPU");
        reveal_strlit("GPU (Windows)");
        reveal_strlit(" (счётчик недоступен)");
        reveal_strlit(" (Apple integrated GPU)");
        reveal_strlit("Apple Silicon GPU");
        reveal_strlit("GPU не обнаружен");
    }
    match nvidia {
        Some(Some(n)) => return (BackendKind::Nvidia, n),
        Some(None) => return (BackendKind::Nvidia, String::from_str("NVIDIA GPU")),
        None => {},
    }
    let on_linux = same_text(os, "linux");
    if on_linux {
        match linux_card {
            Some(card) => return (BackendKind::LinuxSysfs, card),
            None => {},
        }
    }
    if same_text(os, "windows") {
        let mut name = match windows_name {
            Some(out) => match trimmed_nonempty(out.as_str()) {
                Some(t) => t,
                None => String::from_str("GPU (Windows)"),
            },
            None => String::from_str("GPU (Windows)"),
        };
        if windows_counter_ok {
            return (BackendKind::WindowsCounter, name);
        }
        name.append(" (счётчик недоступен)");
        return (BackendKind::CounterMissing, name);
    }
    if same_text(os, "macos") {
        let name = match macos_chip {
            Some(out) => match trimmed_nonempty(out.as_str()) {
                Some(t) => {
                    let mut t = t;
                    t.append(" (Apple integrated GPU)");
                    t
                },
                None => String::from_str("Apple Silicon GPU"),
            },
            None => String::from_str("Apple Silicon GPU"),
        };
        return (BackendKind::MacOsIoreg, name);
    }
    (BackendKind::Unavailable, String::from_str("GPU не обнаружен"))
}

// ───────────── reading the Windows GPU counter ─────────────

/// PDH's status of a valid value.
pub const PDH_CSTATUS_VALID_DATA: u32 = 0x0000_0000;

/// PDH's status of a value collected for the first time.
pub const PDH_CSTATUS_NEW_DATA: u32 = 0x0000_0001;

/// PDH's answer when the buffer is too small (or was not given).
pub const PDH_MORE_DATA: u32 = 0x8000_07D2;

/// How many times the two-step read (ask the size, then read) is tried: the
/// set of GPU engines may grow between the steps.
pub const COUNTER_READ_ATTEMPTS: u32 = 3;

/// What PDH answered.
#[derive(Debug, Clone, Copy, PartialEq, Eq, Structural)]
pub enum CounterEvent {
    /// The query collected its data, with this status.
    Collected(u32),
    /// The size question was answered: the status and the size in bytes.
    Sized { status: u32, size: u32 },
    /// The read was answered: the status and the number of items written.
    Filled { status: u32, items: u32 },
}

/// What the reader does next.
#[derive(Debug, Clone, Copy, PartialEq, Eq, Structural)]
pub enum CounterAction {
    /// Ask how large the buffer must be.
    AskSize,
    /// Read into a buffer of this many items.
    Read { capacity: usize },
    /// Take the highest valid value among this many items of the buffer.
    Use { count: usize },
    /// No reading this time: the utilization is reported as zero.
    Zero,
}

/// How far a counter read has come: the attempts begun, and the capacity of
/// the buffer of the current one.
#[derive(Debug, Clone, Copy, PartialEq, Eq, Structural)]
pub struct CounterRead {
    pub attempts: u32,
    pub capacity: usize,
}

/// The number of whole items that `size` bytes need, rounded up.
pub open spec fn items_for(size: int, item_size: int) -> int {
    (size + item_size - 1) / item_size
}

/// The capacity asked for is the fewest whole items that hold the bytes:
/// enough for all of them, and one item fewer would not be.
pub proof fn lemma_capacity_is_the_fewest_items_that_hold(size: int, item_size: int)
    requires
        size >= 0,
        item_size > 0,
    ensures
        items_for(size, item_size) >= 0,
        items_for(size, item_size) * item_size >= size,
        (items_for(size, item_size) - 1) * item_size < size,
{
    let c = items_for(size, item_size);
    let x = size + item_size - 1;
    vstd::arithmetic::div_mod::lemma_fundamental_div_mod(x, item_size);
    vstd::arithmetic::div_mod::lemma_mod_bound(x, item_size);
    assert(x == item_size * c + x % item_size);
    assert(c >= 0) by {
        vstd::arithmetic::div_mod::lemma_div_pos_is_pos(x, item_size);
    }
    assert(c * item_size == item_size * c) by (nonlinear_arith);
    assert((c - 1) * item_size == item_size * c - item_size) by (nonlinear_arith);
}

/// One step of a counter read. A failed collection, size question or read
/// gives zero; a read that finds the set of engines grown starts a new
/// attempt while attempts are left, else gives zero; a good read uses the
/// items written, but never more than the buffer holds.
pub open spec fn counter_next(state: CounterRead, event: CounterEvent, item_size: usize) -> (
    CounterRead,
    CounterAction,
) {
    match event {
        CounterEvent::Collected(status) => if status == PDH_CSTATUS_VALID_DATA {
            (CounterRead { attempts: 1, capacity: 0 }, CounterAction::AskSize)
        } else {
            (state, CounterAction::Zero)
        },
        CounterEvent::Sized { status, size } => if status == PDH_MORE_DATA {
            let cap = items_for(size as int, item_size as int) as usize;
            (CounterRead { capacity: cap, ..state }, CounterAction::Read { capacity: cap })
        } else {
            (state, CounterAction::Zero)
        },
        CounterEvent::Filled { status, items } => if status == PDH_MORE_DATA {
            if state.attempts < COUNTER_READ_ATTEMPTS {
                (CounterRead { attempts: (state.attempts + 1) as u32, ..state }, CounterAction::AskSize)
            } else {
                (state, CounterAction::Zero)
            }
        } else if status != PDH_CSTATUS_VALID_DATA {
            (state, CounterAction::Zero)
        } else {
            (
                state,
                CounterAction::Use {
                    count: if (items as int) < state.capacity {
                        items as usize
                    } else {
                        state.capacity
                    },
                },
            )
        },
    }
}

/// Advances a counter read by PDH's answer. `item_size` is the size in bytes
/// of one item of the buffer.
pub fn counter_step(state: CounterRead, event: CounterEvent, item_size: usize) -> (r: (
    CounterRead,
    CounterAction,
))
    requires
        item_size > 0,
    ensures
        r == counter_next(state, event, item_size),
        event matches CounterEvent::Sized { status, size } ==> (status == PDH_MORE_DATA ==> (
        r.1 matches CounterAction::Read { capacity } && capacity * item_size >= size && (capacity
            - 1) * item_size < size && r.0.capacity == capacity)),
        event matches CounterEvent::Sized { status, size } ==> (status != PDH_MORE_DATA ==> r.1
            == CounterAction::Zero),
        event matches CounterEvent::Collected(status) ==> (if status == 0 {
            r.1 == CounterAction::AskSize && r.0.attempts == 1
        } else {
            r.1 == CounterAction::Zero
        }),
        event matches CounterEvent::Filled { status, items } ==> (status == 0x8000_07D2 ==> (if state.attempts
            < 3 {
            r.1 == CounterAction::AskSize && r.0.attempts == state.attempts + 1
        } else {
            r.1 == CounterAction::Zero
        })),
        event matches CounterEvent::Filled { status, items } ==> (status == 0 ==> (
        r.1 matches CounterAction::Use { count } && count <= items && count <= state.capacity && (
        count == items || count == state.capacity))),
        event matches CounterEvent::Filled { status, items } ==> ((status != 0 && status
            != 0x8000_07D2) ==> r.1 == CounterAction::Zero),
{
    match event {
        CounterEvent::Collected(status) => if status == PDH_CSTATUS_VALID_DATA {
            (CounterRead { attempts: 1, capacity: 0 }, CounterAction::AskSize)
        } else {
            (state, CounterAction::Zero)
        },
        CounterEvent::Sized { status, size } => if status == PDH_MORE_DATA {
            let bytes = size as usize;
            let whole = bytes / item_size;
            let rem = bytes % item_size;
            assert(whole < bytes || rem == 0) by (nonlinear_arith)
                requires
                    item_size > 0,
                    whole == bytes / item_size,
                    rem == bytes % item_size,
            {
                assert(bytes == item_size * whole + rem);
                if rem != 0 {
                    assert(item_size >= 2);
                    assert(item_size * whole >= 2 * whole);
                }
            }
            let cap = if rem != 0 {
                whole + 1
            } else {
                whole
            };
            assert(cap as int == items_for(size as int, item_size as int)) by (nonlinear_arith)
                requires
                    item_size > 0,
                    bytes == size,
                    whole == bytes / item_size,
                    rem == bytes % item_size,
                    cap as int == whole as int + (if rem != 0 {
                        1int
                    } else {
                        0int
                    }),
            {
                assert(bytes == item_size * whole + rem);
                assert(0 <= rem < item_size);
            }
            proof {
                lemma_capacity_is_the_fewest_items_that_hold(size as int, item_size as int);
            }
            (CounterRead { capacity: cap, ..state }, CounterAction::Read { capacity: cap })
        } else {
            (state, CounterAction::Zero)
        },
        CounterEvent::Filled { status, items } => if status == PDH_MORE_DATA {
            if state.attempts < COUNTER_READ_ATTEMPTS {
                (CounterRead { attempts: state.attempts + 1, ..state }, CounterAction::AskSize)
            } else {
                (state, CounterAction::Zero)
            }
        } else if status != PDH_CSTATUS_VALID_DATA {
            (state, CounterAction::Zero)
        } else {
            let n = items as usize;
            let count = if n < state.capacity {
                n
            } else {
                state.capacity
            };
            (state, CounterAction::Use { count })
        },
    }
}

/// Whether an item's value counts: PDH marked it valid or new.
pub fn counts_sample(status: u32) -> (r: bool)
    ensures
        r == (status == PDH_CSTATUS_VALID_DATA || status == PDH_CSTATUS_NEW_DATA),
        r == (status == 0 || status == 1),
{
    status == PDH_CSTATUS_VALID_DATA || status == PDH_CSTATUS_NEW_DATA
}

} // verus!
