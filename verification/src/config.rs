//! The harness configuration, read from the values of its settings.

use vstd::prelude::*;
use crate::paths::{file_name, file_name_of, join, joined, stem_chars, stem_of, style_of_os, PathStyle};
use crate::text::{
    ascii_lower, chars_of, is_ascii_text, is_lower_ascii, lemma_ascii_lower_settles,
    lemma_trim_keeps_ascii, lowercase_of, parse_u64, parse_u64_spec, same_text, string_of, texts,
    to_lowercase, trim, trim_chars,
};

verus! {

/// Which build is measured first when two are compared.
#[derive(Debug, Clone, Copy, PartialEq, Eq, Structural)]
pub enum RunOrder {
    /// The current build first, the old one second.
    NewFirst,
    /// The old build first, the current one second.
    OldFirst,
}

/// The order used when `RUN_ORDER` does not name one: the current build
/// first. This is the harness's own choice.
pub const DEFAULT_RUN_ORDER: RunOrder = RunOrder::NewFirst;

/// Measurement length, in seconds, when `TEST_DURATION_SECS` gives none.
pub const DEFAULT_TEST_DURATION_SECS: u64 = 10;

/// The application's warm-up time, in seconds, when `SETTLE_SECS` gives none:
/// a minute, the harness's own estimate.
pub const DEFAULT_SETTLE_SECS: u64 = 60;

/// The order that a `RUN_ORDER` value names: `old-first` names the old build
/// first; anything else, or no value, leaves the default. Only the spelling
/// `old-first` is recognised: the harness's own choice of name.
pub open spec fn run_order_of(v: Option<Seq<char>>) -> RunOrder {
    match v {
        Some(s) => if s == "old-first"@ {
            RunOrder::OldFirst
        } else {
            RunOrder::NewFirst
        },
        None => DEFAULT_RUN_ORDER,
    }
}

/// Each order's spelling names that order again: `new-first` the current
/// build first, `old-first` the old one first.
pub proof fn lemma_spelling_round_trips(o: RunOrder)
    ensures
        run_order_of(
            Some(
                match o {
                    RunOrder::NewFirst => "new-first"@,
                    RunOrder::OldFirst => "old-first"@,
                },
            ),
        ) == o,
        run_order_of(Some("new-first"@)) == RunOrder::NewFirst,
        run_order_of(Some("old-first"@)) == RunOrder::OldFirst,
{
    reveal_strlit("new-first");
    reveal_strlit("old-first");
    assert("new-first"@ != "old-first"@) by {
        assert("new-first"@[0] != "old-first"@[0]);
    }
}

impl RunOrder {
    /// The setting's spelling of the order.
    pub fn as_str(&self) -> (r: &'static str)
        ensures
            r@ == (match *self {
                RunOrder::NewFirst => "new-first"@,
                RunOrder::OldFirst => "old-first"@,
            }),
    {
        match self {
            RunOrder::NewFirst => "new-first",
            RunOrder::OldFirst => "old-first",
        }
    }

    /// The order that a `RUN_ORDER` value names.
    pub fn from_setting(v: &Option<String>) -> (r: RunOrder)
        ensures
            r == run_order_of(
                match v {
                    Some(s) => Some(s@),
                    None => None,
                },
            ),
            v matches Some(s) ==> (s@ == "new-first"@ ==> r == RunOrder::NewFirst),
            v matches Some(s) ==> (s@ == "old-first"@ ==> r == RunOrder::OldFirst),
    {
        proof {
            lemma_spelling_round_trips(RunOrder::NewFirst);
            lemma_spelling_round_trips(RunOrder::OldFirst);
        }
        match v {
            Some(s) => if same_text(s.as_str(), "old-first") {
                RunOrder::OldFirst
            } else {
                RunOrder::NewFirst
            },
            None => DEFAULT_RUN_ORDER,
        }
    }
}

/// The human name of a platform, from the operating system's name as
/// `std::env::consts::OS` spells it.
pub open spec fn platform_label(os: Seq<char>) -> Seq<char> {
    if os == "windows"@ {
        "Windows"@
    } else if os == "macos"@ {
        "macOS"@
    } else if os == "linux"@ {
        "Linux"@
    } else {
        "Unknown"@
    }
}

/// The human name of the platform whose operating system is `os`.
pub fn platform_name(os: &str) -> (r: &'static str)
    ensures
        r@ == platform_label(os@),
{
    if same_text(os, "windows") {
        "Windows"
    } else if same_text(os, "macos") {
        "macOS"
    } else if same_text(os, "linux") {
        "Linux"
    } else {
        "Unknown"
    }
}

/// Whether a measurement of `duration_secs` ends before the application has
/// settled; a zero threshold switches the warning off.
pub fn is_short_run(duration_secs: u64, settle_secs: u64) -> (r: bool)
    ensures
        r == (settle_secs > 0 && duration_secs < settle_secs),
{
    settle_secs > 0 && duration_secs < settle_secs
}

// ───────────── process-name patterns ─────────────

/// The pieces of a string between commas (`str::split(',')`): always at least
/// one, empty pieces included.
pub open spec fn split_commas(s: Seq<char>) -> Seq<Seq<char>>
    decreases s.len(),
{
    if s.len() == 0 {
        seq![Seq::<char>::empty()]
    } else {
        let parts = split_commas(s.drop_last());
        if s.last() == ',' {
            parts.push(Seq::<char>::empty())
        } else {
            parts.update(parts.len() - 1, parts.last().push(s.last()))
        }
    }
}

/// Splitting at commas: a string without a comma is one piece, and a comma
/// between two strings splits their pieces apart.
pub proof fn lemma_split_commas_at_a_comma(a: Seq<char>, b: Seq<char>)
    ensures
        split_commas(a + seq![','] + b) == split_commas(a) + split_commas(b),
        !b.contains(',') ==> split_commas(b) == seq![b],
    decreases b.len(),
{
    let whole = a + seq![','] + b;
    if b.len() == 0 {
        assert(whole.drop_last() =~= a);
        assert(whole =~= a + seq![',']);
        assert(split_commas(b) =~= seq![Seq::<char>::empty()]);
        assert(b =~= Seq::<char>::empty());
    } else {
        let b1 = b.drop_last();
        let c = b.last();
        lemma_split_commas_at_a_comma(a, b1);
        lemma_split_commas_len(a);
        lemma_split_commas_len(b1);
        assert(whole.drop_last() =~= a + seq![','] + b1);
        assert(whole.last() == c);
        let pa = split_commas(a);
        let pb = split_commas(b1);
        if c == ',' {
            assert((pa + pb).push(Seq::<char>::empty()) =~= pa + pb.push(Seq::<char>::empty()));
        } else {
            let joined = pa + pb;
            assert(joined.update(joined.len() - 1, joined.last().push(c)) =~= pa + pb.update(
                pb.len() - 1,
                pb.last().push(c),
            ));
        }
        if !b.contains(',') {
            assert(!b1.contains(',')) by {
                if b1.contains(',') {
                    let j = choose|j: int| 0 <= j < b1.len() && b1[j] == ',';
                    assert(b[j] == ',');
                }
            }
            assert(c != ',') by {
                assert(b[b.len() - 1] == c);
            }
            assert(b1.push(c) =~= b);
            assert(b.drop_last() =~= b1);
            assert(pb == seq![b1]);
            assert(split_commas(b) == pb.update(pb.len() - 1, pb.last().push(c)));
            assert(split_commas(b) =~= seq![b]);
        }
    }
}

/// Each piece trimmed and lower-cased; pieces that end up empty are dropped.
pub open spec fn kept_patterns(pieces: Seq<Seq<char>>) -> Seq<Seq<char>>
    decreases pieces.len(),
{
    if pieces.len() == 0 {
        Seq::<Seq<char>>::empty()
    } else {
        let rest = kept_patterns(pieces.drop_last());
        let p = lowercase_of(trim(pieces.last()));
        if p.len() > 0 {
            rest.push(p)
        } else {
            rest
        }
    }
}

/// Each piece trimmed and ASCII-lower-cased; pieces that end up empty are
/// dropped. For ASCII text this is what `kept_patterns` gives.
pub open spec fn ascii_kept_patterns(pieces: Seq<Seq<char>>) -> Seq<Seq<char>>
    decreases pieces.len(),
{
    if pieces.len() == 0 {
        Seq::<Seq<char>>::empty()
    } else {
        let rest = ascii_kept_patterns(pieces.drop_last());
        let p = ascii_lower(trim(pieces.last()));
        if p.len() > 0 {
            rest.push(p)
        } else {
            rest
        }
    }
}

/// The patterns that an ASCII `MATCH_PROCESSES` value lists.
pub open spec fn ascii_listed_patterns(s: Seq<char>) -> Seq<Seq<char>> {
    ascii_kept_patterns(split_commas(s))
}

/// The pattern derived from an ASCII application path: the stem of its file
/// name with ASCII capitals lower-cased.
pub open spec fn ascii_default_patterns(style: PathStyle, app_path: Seq<char>) -> Seq<Seq<char>> {
    match file_name(style, app_path) {
        Some(name) => seq![ascii_lower(stem_of(name))],
        None => Seq::<Seq<char>>::empty(),
    }
}

/// The patterns that a `MATCH_PROCESSES` value lists.
pub open spec fn listed_patterns(s: Seq<char>) -> Seq<Seq<char>> {
    kept_patterns(split_commas(s))
}

/// The pattern derived from the application's path: the lower-cased stem of
/// its file name, the whole stem, when the path names a file.
pub open spec fn default_patterns(style: PathStyle, app_path: Seq<char>) -> Seq<Seq<char>> {
    match file_name(style, app_path) {
        Some(name) => seq![lowercase_of(stem_of(name))],
        None => Seq::<Seq<char>>::empty(),
    }
}

/// No listed pattern is empty: an empty pattern would match, and so terminate,
/// every process of the system.
pub proof fn lemma_listed_patterns_are_never_empty(pieces: Seq<Seq<char>>)
    ensures
        forall|i: int| 0 <= i < kept_patterns(pieces).len() ==> #[trigger] kept_patterns(pieces)[i].len() > 0,
    decreases pieces.len(),
{
    if pieces.len() > 0 {
        lemma_listed_patterns_are_never_empty(pieces.drop_last());
        let rest = kept_patterns(pieces.drop_last());
        assert forall|i: int| 0 <= i < kept_patterns(pieces).len() implies #[trigger] kept_patterns(pieces)[i].len() > 0 by {
            if i < rest.len() {
                assert(kept_patterns(pieces)[i] == rest[i]);
            }
        }
    }
}

proof fn lemma_stem_is_not_empty(name: Seq<char>)
    requires
        name.len() > 0,
    ensures
        stem_of(name).len() > 0,
{
    crate::paths::lemma_after_last_dot_len(name);
}

proof fn lemma_split_commas_len(s: Seq<char>)
    ensures
        split_commas(s).len() >= 1,
    decreases s.len(),
{
    if s.len() > 0 {
        lemma_split_commas_len(s.drop_last());
    }
}

proof fn lemma_kept_ones_stay_lower(before: Seq<String>, after: Seq<String>, piece: Seq<char>, s: Seq<char>)
    requires
        texts(after) == (if lowercase_of(trim(piece)).len() > 0 {
            texts(before).push(lowercase_of(trim(piece)))
        } else {
            texts(before)
        }),
        is_ascii_text(piece) ==> is_lower_ascii(lowercase_of(trim(piece))),
        is_ascii_text(s) ==> is_ascii_text(piece),
        is_ascii_text(s) ==> forall|j: int| 0 <= j < before.len() ==> is_lower_ascii(#[trigger] before[j]@),
    ensures
        is_ascii_text(s) ==> forall|j: int| 0 <= j < after.len() ==> is_lower_ascii(#[trigger] after[j]@),
{
    if is_ascii_text(s) {
        assert(texts(after).len() == after.len());
        assert(texts(before).len() == before.len());
        assert forall|j: int| 0 <= j < after.len() implies is_lower_ascii(#[trigger] after[j]@) by {
            assert(texts(after)[j] == after[j]@);
            if j < before.len() {
                assert(texts(before)[j] == before[j]@);
                assert(texts(after)[j] == texts(before)[j]);
            } else {
                assert(texts(after)[j] == lowercase_of(trim(piece)));
            }
        }
    }
}

/// Adds the pattern of one piece, if it is not empty.
fn keep_piece(out: &mut Vec<String>, piece: &Vec<char>)
    ensures
        texts(final(out)@) == (if lowercase_of(trim(piece@)).len() > 0 {
            texts(old(out)@).push(lowercase_of(trim(piece@)))
        } else {
            texts(old(out)@)
        }),
        is_ascii_text(piece@) ==> is_lower_ascii(lowercase_of(trim(piece@))),
        is_ascii_text(piece@) ==> lowercase_of(trim(piece@)) == ascii_lower(trim(piece@)),
{
    let t = trim_chars(piece.as_slice());
    let ts = string_of(t.as_slice());
    let p = to_lowercase(ts.as_str());
    proof {
        if is_ascii_text(piece@) {
            lemma_trim_keeps_ascii(piece@);
            lemma_ascii_lower_settles(trim(piece@));
        }
    }
    if p.unicode_len() > 0 {
        out.push(p);
        assert(texts(out@) =~= texts(old(out)@).push(lowercase_of(trim(piece@))));
    }
}

/// The patterns listed in a comma-separated setting: each piece trimmed and
/// lower-cased, empty ones dropped.
pub fn parse_match_processes(s: &str) -> (r: Vec<String>)
    ensures
        texts(r@) == listed_patterns(s@),
        is_ascii_text(s@) ==> texts(r@) == ascii_listed_patterns(s@),
        is_ascii_text(s@) ==> forall|i: int| 0 <= i < r@.len() ==> is_lower_ascii(#[trigger] r@[i]@),
{
    let v = chars_of(s);
    let n = v.len();
    let mut out: Vec<String> = Vec::new();
    let mut cur: Vec<char> = Vec::new();
    let mut i: usize = 0;
    proof {
        assert(v@.take(0) =~= Seq::<char>::empty());
        assert(texts(out@) =~= Seq::<Seq<char>>::empty());
    }
    while i < n
        invariant
            n == v@.len(),
            v@ == s@,
            i <= n,
            split_commas(v@.take(i as int)).len() >= 1,
            cur@ == split_commas(v@.take(i as int)).last(),
            texts(out@) == kept_patterns(split_commas(v@.take(i as int)).drop_last()),
            is_ascii_text(s@) ==> texts(out@) == ascii_kept_patterns(
                split_commas(v@.take(i as int)).drop_last(),
            ),
            is_ascii_text(s@) ==> is_ascii_text(cur@),
            is_ascii_text(s@) ==> forall|j: int| 0 <= j < out@.len() ==> is_lower_ascii(#[trigger] out@[j]@),
        decreases n - i,
    {
        let c = v[i];
        let ghost pre = v@.take(i as int);
        let ghost parts = split_commas(pre);
        assert(v@.take(i + 1).drop_last() =~= pre);
        assert(v@.take(i + 1).last() == c);
        if c == ',' {
            let ghost before = out@;
            keep_piece(&mut out, &cur);
            proof {
                lemma_kept_ones_stay_lower(before, out@, cur@, s@);
            }
            cur = Vec::new();
            proof {
                let np = split_commas(v@.take(i + 1));
                assert(np == parts.push(Seq::<char>::empty()));
                assert(np.drop_last() =~= parts);
                assert(parts.drop_last().push(parts.last()) =~= parts);
                assert(cur@ =~= np.last());
            }
        } else {
            let ghost before = cur@;
            cur.push(c);
            proof {
                if is_ascii_text(s@) {
                    assert(cur@ == before.push(c));
                    assert(is_ascii_text(cur@)) by {
                        assert forall|j: int| 0 <= j < cur@.len() implies crate::text::is_ascii_char(#[trigger] cur@[j]) by {
                            if j < before.len() {
                                assert(cur@[j] == before[j]);
                            } else {
                                assert(cur@[j] == v@[i as int]);
                            }
                        }
                    }
                }
                let np = split_commas(v@.take(i + 1));
                assert(np == parts.update(parts.len() - 1, parts.last().push(c)));
                assert(np.drop_last() =~= parts.drop_last());
            }
        }
        i += 1;
        proof {
            lemma_split_commas_len(v@.take(i as int));
        }
    }
    assert(v@.take(n as int) =~= v@);
    let ghost before = out@;
    keep_piece(&mut out, &cur);
    proof {
        lemma_kept_ones_stay_lower(before, out@, cur@, s@);
    }
    proof {
        let parts = split_commas(v@);
        assert(parts.drop_last().push(parts.last()) =~= parts);
    }
    out
}

/// The pattern derived from the application's path: its file name without the
/// last extension, lower-cased. A path that names no file gives no pattern;
/// an empty pattern is never given (it would match every process).
pub fn default_match_patterns(app_path: &str, style: PathStyle) -> (r: Vec<String>)
    ensures
        texts(r@) == default_patterns(style, app_path@),
        r@.len() == 1 <==> file_name(style, app_path@) is Some,
        forall|i: int| 0 <= i < r@.len() ==> r@[i]@.len() > 0,
        is_ascii_text(app_path@) ==> texts(r@) == ascii_default_patterns(style, app_path@),
        is_ascii_text(app_path@) ==> forall|i: int| 0 <= i < r@.len() ==> is_lower_ascii(#[trigger] r@[i]@),
{
    let mut out: Vec<String> = Vec::new();
    match file_name_of(app_path, style) {
        Some(name) => {
            let nv = chars_of(name.as_str());
            let st = stem_chars(&nv);
            proof {
                crate::paths::lemma_file_name_is_not_empty(style, app_path@);
                lemma_stem_is_not_empty(nv@);
            }
            let sts = string_of(st.as_slice());
            proof {
                if is_ascii_text(app_path@) {
                    crate::paths::lemma_file_stem_keeps_ascii(style, app_path@);
                    lemma_ascii_lower_settles(sts@);
                }
            }
            let p = to_lowercase(sts.as_str());
            if p.unicode_len() > 0 {
                out.push(p);
                assert(texts(out@) =~= seq![lowercase_of(stem_of(name@))]);
            }
        },
        None => {
            assert(texts(out@) =~= Seq::<Seq<char>>::empty());
        },
    }
    out
}

// ───────────── default database location ─────────────

/// The application's data directory on each system: under `LOCALAPPDATA` on
/// Windows, under `~/Library/Application Support` on macOS, and under
/// `XDG_DATA_HOME` (or `~/.local/share`) elsewhere.
pub open spec fn app_data_dir(
    os: Seq<char>,
    local_app_data: Option<Seq<char>>,
    home: Option<Seq<char>>,
    xdg_data_home: Option<Seq<char>>,
) -> Option<Seq<char>> {
    let style = style_of_os(os);
    if os == "windows"@ {
        match local_app_data {
            Some(p) => Some(join(style, p, "spectre-terminal"@)),
            None => None,
        }
    } else if os == "macos"@ {
        match home {
            Some(h) => Some(join(style, h, "Library/Application Support/spectre-terminal"@)),
            None => None,
        }
    } else {
        match xdg_data_home {
            Some(x) => Some(join(style, x, "spectre-terminal"@)),
            None => match home {
                Some(h) => Some(join(style, join(style, h, ".local/share"@), "spectre-terminal"@)),
                None => None,
            },
        }
    }
}

/// The default place of the state database: `exchanges.db` in the data
/// directory, or in the current directory when there is none.
pub open spec fn default_db_location(
    os: Seq<char>,
    local_app_data: Option<Seq<char>>,
    home: Option<Seq<char>>,
    xdg_data_home: Option<Seq<char>>,
) -> Seq<char> {
    match app_data_dir(os, local_app_data, home, xdg_data_home) {
        Some(d) => join(style_of_os(os), d, "exchanges.db"@),
        None => join(style_of_os(os), "."@, "exchanges.db"@),
    }
}

/// The characters of an optional string.
pub open spec fn opt_text(v: Option<String>) -> Option<Seq<char>> {
    match v {
        Some(s) => Some(s@),
        None => None,
    }
}

/// The application's data directory.
pub fn default_app_data_dir(
    os: &str,
    local_app_data: &Option<String>,
    home: &Option<String>,
    xdg_data_home: &Option<String>,
) -> (r: Option<String>)
    ensures
        opt_text(r) == app_data_dir(
            os@,
            opt_text(*local_app_data),
            opt_text(*home),
            opt_text(*xdg_data_home),
        ),
{
    let style = PathStyle::for_os(os);
    if same_text(os, "windows") {
        match local_app_data {
            Some(p) => Some(joined(p.as_str(), "spectre-terminal", style)),
            None => None,
        }
    } else if same_text(os, "macos") {
        match home {
            Some(h) => Some(joined(h.as_str(), "Library/Application Support/spectre-terminal", style)),
            None => None,
        }
    } else {
        match xdg_data_home {
            Some(x) => Some(joined(x.as_str(), "spectre-terminal", style)),
            None => match home {
                Some(h) => {
                    let share = joined(h.as_str(), ".local/share", style);
                    Some(joined(share.as_str(), "spectre-terminal", style))
                },
                None => None,
            },
        }
    }
}

/// The default place of the state database.
pub fn default_db_path(
    os: &str,
    local_app_data: &Option<String>,
    home: &Option<String>,
    xdg_data_home: &Option<String>,
) -> (r: String)
    ensures
        r@ == default_db_location(
            os@,
            opt_text(*local_app_data),
            opt_text(*home),
            opt_text(*xdg_data_home),
        ),
{
    let style = PathStyle::for_os(os);
    match default_app_data_dir(os, local_app_data, home, xdg_data_home) {
        Some(d) => joined(d.as_str(), "exchanges.db", style),
        None => joined(".", "exchanges.db", style),
    }
}

// ───────────── the configuration ─────────────

/// The raw values of the harness settings, as the environment gave them.
pub struct ConfigVars {
    pub os: String,
    pub app_path_new: Option<String>,
    pub app_path_old: Option<String>,
    pub test_duration_secs: Option<String>,
    pub db_path: Option<String>,
    pub match_processes: Option<String>,
    pub run_order: Option<String>,
    pub settle_secs: Option<String>,
    pub local_app_data: Option<String>,
    pub home: Option<String>,
    pub xdg_data_home: Option<String>,
}

/// Why no configuration could be made.
#[derive(Debug, Clone, Copy, PartialEq, Eq, Structural)]
pub enum ConfigError {
    /// `APP_PATH_NEW` is not set.
    MissingAppPathNew,
}

/// The harness configuration.
pub struct Config {
    pub app_path_new: String,
    pub app_path_old: Option<String>,
    pub test_duration_secs: u64,
    /// Path to the state file `exchanges.db`: `DB_PATH` when given, otherwise
    /// the default place for the current system.
    pub db_path: String,
    /// Lower-case substrings of the process names that belong to the measured
    /// application (extra windows, helper applications): `MATCH_PROCESSES`
    /// when given, otherwise derived from the application's file name.
    pub match_processes: Vec<String>,
    pub run_order: RunOrder,
    pub settle_secs: u64,
}

/// An optional setting that is present and not empty.
pub open spec fn given(v: Option<String>) -> bool {
    v matches Some(s) && s@.len() > 0
}

/// A number setting: its value when it reads as one, otherwise the default.
pub open spec fn number_or(v: Option<String>, default: u64) -> u64 {
    match v {
        Some(s) => match parse_u64_spec(s@) {
            Some(n) => n,
            None => default,
        },
        None => default,
    }
}

fn non_empty(v: &Option<String>) -> (r: Option<String>)
    ensures
        given(*v) ==> r == *v,
        !given(*v) ==> r is None,
{
    match v {
        Some(s) => if s.unicode_len() > 0 {
            Some(s.clone())
        } else {
            None
        },
        None => None,
    }
}

fn number_setting(v: &Option<String>, default: u64) -> (r: u64)
    ensures
        r == number_or(*v, default),
{
    match v {
        Some(s) => match parse_u64(s.as_str()) {
            Some(n) => n,
            None => default,
        },
        None => default,
    }
}

impl Config {
    /// Builds the configuration from the settings' values. Empty values of the
    /// optional paths and of `MATCH_PROCESSES` count as absent; a number that
    /// does not read falls back to its default.
    pub fn from_vars(vars: &ConfigVars) -> (r: Result<Config, ConfigError>)
        ensures
            vars.app_path_new is None <==> r is Err,
            r matches Ok(c) ==> {
                &&& c.app_path_new@ == vars.app_path_new->0@
                &&& (given(vars.app_path_old) ==> c.app_path_old == vars.app_path_old)
                &&& (!given(vars.app_path_old) ==> c.app_path_old is None)
                &&& c.test_duration_secs == number_or(
                    vars.test_duration_secs,
                    DEFAULT_TEST_DURATION_SECS,
                )
                &&& c.db_path@ == (if given(vars.db_path) {
                    vars.db_path->0@
                } else {
                    default_db_location(
                        vars.os@,
                        opt_text(vars.local_app_data),
                        opt_text(vars.home),
                        opt_text(vars.xdg_data_home),
                    )
                })
                &&& texts(c.match_processes@) == (if given(vars.match_processes) {
                    listed_patterns(vars.match_processes->0@)
                } else {
                    default_patterns(style_of_os(vars.os@), vars.app_path_new->0@)
                })
                &&& forall|i: int|
                    0 <= i < c.match_processes@.len() ==> #[trigger] c.match_processes@[i]@.len() > 0
                &&& is_ascii_text(
                    if given(vars.match_processes) {
                        vars.match_processes->0@
                    } else {
                        vars.app_path_new->0@
                    },
                ) ==> forall|i: int|
                    0 <= i < c.match_processes@.len() ==> is_lower_ascii(#[trigger] c.match_processes@[i]@)
                &&& (given(vars.match_processes) && is_ascii_text(vars.match_processes->0@)) ==> texts(
                    c.match_processes@,
                ) == ascii_listed_patterns(vars.match_processes->0@)
                &&& (!given(vars.match_processes) && is_ascii_text(vars.app_path_new->0@)) ==> texts(
                    c.match_processes@,
                ) == ascii_default_patterns(style_of_os(vars.os@), vars.app_path_new->0@)
                &&& c.run_order == run_order_of(opt_text(vars.run_order))
                &&& c.settle_secs == number_or(vars.settle_secs, DEFAULT_SETTLE_SECS)
            },
    {
        let app_path_new = match &vars.app_path_new {
            Some(p) => p.clone(),
            None => {
                return Err(ConfigError::MissingAppPathNew);
            },
        };
        let app_path_old = non_empty(&vars.app_path_old);
        let test_duration_secs = number_setting(
            &vars.test_duration_secs,
            DEFAULT_TEST_DURATION_SECS,
        );
        let db_path = match non_empty(&vars.db_path) {
            Some(p) => p,
            None => default_db_path(
                vars.os.as_str(),
                &vars.local_app_data,
                &vars.home,
                &vars.xdg_data_home,
            ),
        };
        let match_processes = match non_empty(&vars.match_processes) {
            Some(s) => {
                let m = parse_match_processes(s.as_str());
                proof {
                    lemma_listed_patterns_are_never_empty(split_commas(s@));
                    assert forall|i: int| 0 <= i < m@.len() implies #[trigger] m@[i]@.len() > 0 by {
                        assert(texts(m@)[i] == m@[i]@);
                    }
                }
                m
            },
            None => default_match_patterns(app_path_new.as_str(), PathStyle::for_os(vars.os.as_str())),
        };
        let run_order = RunOrder::from_setting(&vars.run_order);
        let settle_secs = number_setting(&vars.settle_secs, DEFAULT_SETTLE_SECS);
        Ok(
            Config {
                app_path_new,
                app_path_old,
                test_duration_secs,
                db_path,
                match_processes,
                run_order,
                settle_secs,
            },
        )
    }
}

} // verus!
