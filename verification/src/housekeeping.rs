//! Reading the saved status files: which files are status files, the fields
//! read from their lines, and when an old status file is deleted.
use crate::text::{
    find_char, index_of, index_of_from, lemma_index_of_from, starts_with, starts_with_spec,
    substring, trim, trim_quotes, trim_quotes_spec, trim_spec,
};
use crate::order::{key_sorted, keys_of, sort_by_text};
use crate::time::{nanos_between, ts_nanos, Timestamp};
use vstd::prelude::*;

verus! {

/// The position of the last `c` of `s` before position `i`.
pub open spec fn last_index_before(s: Seq<char>, c: char, i: int) -> Option<int>
    decreases i,
{
    if 0 < i <= s.len() {
        if s[i - 1] == c {
            Some(i - 1)
        } else {
            last_index_before(s, c, i - 1)
        }
    } else {
        None
    }
}

/// The file name has the extension `toml`, as `Path::extension` reads it:
/// the text after the last dot, where that dot is not the first character.
pub open spec fn has_toml_extension(name: Seq<char>) -> bool {
    match last_index_before(name, '.', name.len() as int) {
        Some(p) => p > 0 && name.subrange(p + 1, name.len() as int) == "toml"@,
        None => false,
    }
}

/// Whether a file name is that of a status file.
pub fn is_status_file(file_name: &str) -> (r: bool)
    ensures
        r == has_toml_extension(file_name@),
{
    let v = crate::text::chars_of(file_name);
    let n = v.len();
    let mut i: usize = n;
    while i > 0 && v[i - 1] != '.'
        invariant
            i <= n,
            n == file_name@.len(),
            v@ == file_name@,
            last_index_before(file_name@, '.', n as int) == last_index_before(file_name@, '.', i as int),
        decreases i,
    {
        i = i - 1;
    }
    if i == 0 {
        return false;
    }
    let p = i - 1;
    if p == 0 {
        return false;
    }
    let ext = substring(file_name, p + 1, n);
    let toml = String::from_str("toml");
    ext == toml
}

/// The value of a `key = value` line: the text after the first `=`, trimmed
/// of whitespace and then of double quotes.
pub open spec fn line_value(line: Seq<char>) -> Option<Seq<char>> {
    match index_of(line, '=') {
        Some(i) => Some(trim_quotes_spec(trim_spec(line.subrange(i + 1, line.len() as int)))),
        None => None,
    }
}

fn line_value_exec(line: &str) -> (r: Option<String>)
    ensures
        match r {
            Some(v) => line_value(line@) == Some(v@),
            None => line_value(line@) is None,
        },
{
    match find_char(line, '=') {
        Some(i) => {
            proof {
                lemma_index_of_from(line@, '=', 0);
            }
            let n = line.unicode_len();
            let rest = substring(line, i + 1, n);
            let t = trim(rest.as_str());
            Some(trim_quotes(t.as_str()))
        },
        None => None,
    }
}

/// The two fields of a status file read from its lines.
pub struct StatusFields {
    pub last_update: Option<String>,
    pub original_file_full_path: Option<String>,
}

/// The view of an optional text.
pub open spec fn opt_view(o: Option<String>) -> Option<Seq<char>> {
    match o {
        Some(s) => Some(s@),
        None => None,
    }
}

/// One line read: a line that begins with a field's name and holds an `=`
/// sets that field.
pub open spec fn read_field(
    current: Option<Seq<char>>,
    line: Seq<char>,
    name: Seq<char>,
) -> Option<Seq<char>> {
    if starts_with_spec(line, name) && line_value(line) is Some {
        line_value(line)
    } else {
        current
    }
}

/// The fields read from the first `n` lines; reading stops once both are set.
pub open spec fn fields_upto(lines: Seq<Seq<char>>, n: int) -> (Option<Seq<char>>, Option<Seq<char>>)
    decreases n,
{
    if n <= 0 || n > lines.len() {
        (None, None)
    } else {
        let p = fields_upto(lines, n - 1);
        if p.0 is Some && p.1 is Some {
            p
        } else {
            (
                read_field(p.0, lines[n - 1], "last_update"@),
                read_field(p.1, lines[n - 1], "original_file_full_path"@),
            )
        }
    }
}

/// The `last_update` and `original_file_full_path` fields of a status file,
/// read line by line until both are found; a later line of a field not yet
/// settled replaces an earlier one.
pub fn status_file_fields(lines: &Vec<String>) -> (r: StatusFields)
    ensures
        (opt_view(r.last_update), opt_view(r.original_file_full_path)) == fields_upto(
            crate::text::string_views(lines@),
            lines@.len() as int,
        ),
{
    let ghost ls = crate::text::string_views(lines@);
    let mut last_update: Option<String> = None;
    let mut config_path: Option<String> = None;
    let mut i: usize = 0;
    while i < lines.len()
        invariant
            i <= lines@.len(),
            ls == crate::text::string_views(lines@),
            (opt_view(last_update), opt_view(config_path)) == fields_upto(ls, i as int),
        decreases lines@.len() - i,
    {
        if last_update.is_some() && config_path.is_some() {
            proof {
                assert(fields_upto(ls, i + 1) == fields_upto(ls, i as int));
            }
        } else {
            let line = lines[i].as_str();
            proof {
                assert(ls[i as int] == line@);
            }
            if starts_with(line, "last_update") {
                match line_value_exec(line) {
                    Some(v) => {
                        last_update = Some(v);
                    },
                    None => {},
                }
            }
            if starts_with(line, "original_file_full_path") {
                match line_value_exec(line) {
                    Some(v) => {
                        config_path = Some(v);
                    },
                    None => {},
                }
            }
        }
        i = i + 1;
    }
    StatusFields { last_update, original_file_full_path: config_path }
}

// ---------------------------------------------------------------------------
// The date of the last update

/// The end of the run of ASCII digits that starts at `i`.
pub open spec fn digits_end(s: Seq<char>, i: int) -> int
    decreases s.len() - i,
{
    if 0 <= i < s.len() && '0' <= s[i] && s[i] <= '9' {
        digits_end(s, i + 1)
    } else {
        i
    }
}

proof fn lemma_digits_end(s: Seq<char>, i: int)
    requires
        0 <= i <= s.len(),
    ensures
        i <= digits_end(s, i) <= s.len(),
    decreases s.len() - i,
{
    if i < s.len() && '0' <= s[i] && s[i] <= '9' {
        lemma_digits_end(s, i + 1);
    }
}

/// A date text with the digits after its first dot cut to nine.
pub open spec fn trim_fraction_spec(s: Seq<char>) -> Seq<char> {
    match index_of(s, '.') {
        Some(d) => {
            let e = digits_end(s, d + 1);
            if e - (d + 1) > 9 {
                s.subrange(0, d + 10) + s.subrange(e, s.len() as int)
            } else {
                s
            }
        },
        None => s,
    }
}

/// Cuts the fraction of seconds of a date text to nine digits.
pub fn trim_fraction(s: &str) -> (r: String)
    ensures
        r@ == trim_fraction_spec(s@),
{
    let v = crate::text::chars_of(s);
    match find_char(s, '.') {
        Some(d) => {
            proof {
                lemma_index_of_from(s@, '.', 0);
                lemma_digits_end(s@, d + 1);
            }
            let n = v.len();
            assert(d < n);
            let mut e = d + 1;
            while e < v.len() && '0' <= v[e] && v[e] <= '9'
                invariant
                    d + 1 <= e <= v@.len(),
                    v@ == s@,
                    digits_end(s@, d + 1) == digits_end(s@, e as int),
                decreases v@.len() - e,
            {
                e = e + 1;
            }
            if e - (d + 1) > 9 {
                let mut out = substring(s, 0, d + 10);
                let tail = substring(s, e, v.len());
                out.append(tail.as_str());
                out
            } else {
                substring_all(s)
            }
        },
        None => substring_all(s),
    }
}

fn substring_all(s: &str) -> (r: String)
    ensures
        r@ == s@,
{
    let r = substring(s, 0, s.unicode_len());
    proof {
        assert(s@.subrange(0, s@.len() as int) =~= s@);
    }
    r
}

/// The instant an RFC 3339 date text names, as seconds and nanoseconds since
/// the epoch in UTC.
pub uninterp spec fn rfc3339_instant(s: Seq<char>) -> Option<(i64, u32)>;

/// The date and time a text gives in the form `%Y-%m-%dT%H:%M:%S%.f`, as
/// seconds and nanoseconds since 1970-01-01T00:00:00 on the same clock.
pub uninterp spec fn naive_date_time(s: Seq<char>) -> Option<(i64, u32)>;

/// `chrono::DateTime::parse_from_rfc3339`, read as seconds and nanoseconds
/// since the epoch (`timestamp`, `timestamp_subsec_nanos`). The claim is only
/// that the result depends on the text alone.
#[verifier::external_body]
fn parse_rfc3339(s: &str) -> (r: Option<Timestamp>)
    ensures
        match r {
            Some(t) => rfc3339_instant(s@) == Some((t.secs, t.nanos)),
            None => rfc3339_instant(s@) is None,
        },
{
    match chrono::DateTime::parse_from_rfc3339(s) {
        Ok(dt) => Some(Timestamp { secs: dt.timestamp(), nanos: dt.timestamp_subsec_nanos() }),
        Err(_) => None,
    }
}

/// `chrono::NaiveDateTime::parse_from_str` with the format
/// `%Y-%m-%dT%H:%M:%S%.f`, read on the naive clock (`and_utc`). The claim is
/// only that the result depends on the text alone.
#[verifier::external_body]
fn parse_naive(s: &str) -> (r: Option<Timestamp>)
    ensures
        match r {
            Some(t) => naive_date_time(s@) == Some((t.secs, t.nanos)),
            None => naive_date_time(s@) is None,
        },
{
    match chrono::NaiveDateTime::parse_from_str(s, "%Y-%m-%dT%H:%M:%S%.f") {
        Ok(n) => Some(Timestamp { secs: n.and_utc().timestamp(), nanos: n.and_utc().timestamp_subsec_nanos() }),
        Err(_) => None,
    }
}

/// The date of a status file's last update: an instant, a date and time on
/// the local clock, or no date at all.
pub enum LastUpdate {
    Instant(Timestamp),
    Local(Timestamp),
    Unreadable,
}

/// The last update read from a date text: as RFC 3339 first, then in the
/// naive form.
pub open spec fn last_update_of(s: Seq<char>) -> LastUpdate {
    match rfc3339_instant(s) {
        Some((secs, nanos)) => LastUpdate::Instant(Timestamp { secs, nanos }),
        None => match naive_date_time(s) {
            Some((secs, nanos)) => LastUpdate::Local(Timestamp { secs, nanos }),
            None => LastUpdate::Unreadable,
        },
    }
}

/// Reads the date of the last update from a status file's field, once its
/// fraction of seconds is cut to nine digits.
pub fn read_last_update(field: &str) -> (r: LastUpdate)
    ensures
        r == last_update_of(trim_fraction_spec(field@)),
{
    let text = trim_fraction(field);
    match parse_rfc3339(text.as_str()) {
        Some(t) => LastUpdate::Instant(t),
        None => match parse_naive(text.as_str()) {
            Some(t) => LastUpdate::Local(t),
            None => LastUpdate::Unreadable,
        },
    }
}

/// Nanoseconds in seven days.
pub const SEVEN_DAYS_NANOS: i128 = 604_800_000_000_000;

/// A status file last updated more than seven days before `now` is deleted.
pub open spec fn stale_spec(now: Timestamp, updated: Timestamp) -> bool {
    ts_nanos(now) - ts_nanos(updated) > SEVEN_DAYS_NANOS
}

/// Whether a status file last updated at `updated` is older than seven days.
pub fn is_stale(now: Timestamp, updated: Timestamp) -> (r: bool)
    ensures
        r == stale_spec(now, updated),
{
    nanos_between(updated, now) > SEVEN_DAYS_NANOS
}

/// The instant of a status file's last update: the instant its date names,
/// or, for a date on the local clock, the instant `local_instant` the caller
/// read for it.
pub open spec fn update_instant(field: Seq<char>, local_instant: Option<Timestamp>) -> Option<Timestamp> {
    match last_update_of(trim_fraction_spec(field)) {
        LastUpdate::Instant(t) => Some(t),
        LastUpdate::Local(_) => local_instant,
        LastUpdate::Unreadable => None,
    }
}

/// The local-clock date of a status file's last update, when the file has
/// both fields and its date carries no offset: the date the caller turns
/// into an instant with the local time zone.
pub open spec fn local_update_date(lines: Seq<Seq<char>>) -> Option<Timestamp> {
    let f = fields_upto(lines, lines.len() as int);
    match (f.0, f.1) {
        (Some(lu), Some(_)) => match last_update_of(trim_fraction_spec(lu)) {
            LastUpdate::Local(t) => Some(t),
            _ => None,
        },
        _ => None,
    }
}

/// The local-clock date of a status file's last update, if it is one.
pub fn naive_update_date(lines: &Vec<String>) -> (r: Option<Timestamp>)
    ensures
        r == local_update_date(crate::text::string_views(lines@)),
{
    let f = status_file_fields(lines);
    match (f.last_update, f.original_file_full_path) {
        (Some(lu), Some(_)) => match read_last_update(lu.as_str()) {
            LastUpdate::Local(t) => Some(t),
            _ => None,
        },
        _ => None,
    }
}

/// What is done with a file of the status folder.
pub enum StatusFileVerdict {
    /// Not a status file, or one without both fields: left alone.
    Skip,
    /// Updated within the last seven days.
    Keep,
    /// Not updated for more than seven days: deleted; it belonged to this
    /// configuration file.
    Delete { config_path: String },
    /// Its date of last update cannot be read.
    Unreadable,
}

/// Decides what to do with a file of the status folder, given its name, its
/// lines, the instant `now`, and the instant the caller read for its
/// local-clock date (see `naive_update_date`).
pub fn should_delete(
    file_name: &str,
    lines: &Vec<String>,
    now: Timestamp,
    local_instant: Option<Timestamp>,
) -> (r: StatusFileVerdict)
    ensures
        ({
            let f = fields_upto(crate::text::string_views(lines@), lines@.len() as int);
            if !has_toml_extension(file_name@) || f.0 is None || f.1 is None {
                r is Skip
            } else {
                match update_instant(f.0->0, local_instant) {
                    Some(t) => if stale_spec(now, t) {
                        r matches StatusFileVerdict::Delete { config_path } && config_path@ == f.1->0
                    } else {
                        r is Keep
                    },
                    None => r is Unreadable,
                }
            }
        }),
{
    if !is_status_file(file_name) {
        return StatusFileVerdict::Skip;
    }
    let f = status_file_fields(lines);
    match (f.last_update, f.original_file_full_path) {
        (Some(lu), Some(path)) => {
            let instant = match read_last_update(lu.as_str()) {
                LastUpdate::Instant(t) => Some(t),
                LastUpdate::Local(_) => local_instant,
                LastUpdate::Unreadable => None,
            };
            match instant {
                Some(t) => if is_stale(now, t) {
                    StatusFileVerdict::Delete { config_path: path }
                } else {
                    StatusFileVerdict::Keep
                },
                None => StatusFileVerdict::Unreadable,
            }
        },
        _ => StatusFileVerdict::Skip,
    }
}

// ---------------------------------------------------------------------------
// The configuration file a status file belongs to

/// The text between the first and the second `=` of a line (`split('=')`,
/// second piece), when the line holds an `=`.
pub open spec fn second_piece(line: Seq<char>) -> Option<Seq<char>> {
    match index_of(line, '=') {
        Some(i) => match index_of_from(line, '=', i + 1) {
            Some(j) => Some(line.subrange(i + 1, j)),
            None => Some(line.subrange(i + 1, line.len() as int)),
        },
        None => None,
    }
}

/// The first line from `i` on that begins with `prefix`.
pub open spec fn first_line_from(lines: Seq<Seq<char>>, prefix: Seq<char>, i: int) -> Option<Seq<char>>
    decreases lines.len() - i,
{
    if 0 <= i < lines.len() {
        if starts_with_spec(lines[i], prefix) {
            Some(lines[i])
        } else {
            first_line_from(lines, prefix, i + 1)
        }
    } else {
        None
    }
}

/// The configuration file named in a status file's lines: the value of the
/// first `original_file_full_path` line, trimmed of whitespace and of double
/// quotes, or `unknown`.
pub open spec fn cfg_file_spec(lines: Seq<Seq<char>>) -> Seq<char> {
    match first_line_from(lines, "original_file_full_path"@, 0) {
        Some(line) => match second_piece(line) {
            Some(v) => trim_quotes_spec(trim_spec(v)),
            None => "unknown"@,
        },
        None => "unknown"@,
    }
}

/// The configuration file a status file belongs to, read from its lines.
pub fn get_cfg_file_from_running(lines: &Vec<String>) -> (r: String)
    ensures
        r@ == cfg_file_spec(crate::text::string_views(lines@)),
{
    let ghost ls = crate::text::string_views(lines@);
    let mut i: usize = 0;
    while i < lines.len()
        invariant
            i <= lines@.len(),
            ls == crate::text::string_views(lines@),
            first_line_from(ls, "original_file_full_path"@, 0) == first_line_from(
                ls,
                "original_file_full_path"@,
                i as int,
            ),
        decreases lines@.len() - i,
    {
        let line = lines[i].as_str();
        proof {
            assert(ls[i as int] == line@);
        }
        if starts_with(line, "original_file_full_path") {
            return match find_char(line, '=') {
                Some(a) => {
                    proof {
                        lemma_index_of_from(line@, '=', 0);
                        lemma_index_of_from(line@, '=', a + 1);
                    }
                    let n = line.unicode_len();
                    let rest = substring(line, a + 1, n);
                    let piece = match find_char(rest.as_str(), '=') {
                        Some(b) => {
                            proof {
                                lemma_index_of_from(rest@, '=', 0);
                                lemma_index_of_second(line@, a as int, b as int);
                            }
                            substring(line, a + 1, a + 1 + b)
                        },
                        None => {
                            proof {
                                lemma_index_of_from(rest@, '=', 0);
                                lemma_no_second(line@, a as int);
                            }
                            rest
                        },
                    };
                    let t = trim(piece.as_str());
                    trim_quotes(t.as_str())
                },
                None => {
                    let r = String::from_str("unknown");
                    r
                },
            };
        }
        i = i + 1;
    }
    String::from_str("unknown")
}

proof fn lemma_index_of_second(line: Seq<char>, a: int, b: int)
    requires
        0 <= a < line.len(),
        index_of(line.subrange(a + 1, line.len() as int), '=') == Some(b),
    ensures
        index_of_from(line, '=', a + 1) == Some(a + 1 + b),
{
    let rest = line.subrange(a + 1, line.len() as int);
    lemma_index_of_from(rest, '=', 0);
    lemma_shifted(line, a + 1, 0, b);
}

proof fn lemma_shifted(line: Seq<char>, off: int, k: int, b: int)
    requires
        0 <= off <= line.len(),
        0 <= k <= b,
        index_of_from(line.subrange(off, line.len() as int), '=', k) == Some(b),
    ensures
        index_of_from(line, '=', off + k) == Some(off + b),
    decreases b - k,
{
    let rest = line.subrange(off, line.len() as int);
    lemma_index_of_from(rest, '=', k);
    if k < b {
        assert(rest[k] != '=');
        assert(index_of_from(rest, '=', k + 1) == Some(b));
        lemma_shifted(line, off, k + 1, b);
        assert(line[off + k] == rest[k]);
    } else {
        assert(line[off + b] == rest[b]);
    }
}

proof fn lemma_no_second(line: Seq<char>, a: int)
    requires
        0 <= a < line.len(),
        index_of(line.subrange(a + 1, line.len() as int), '=') is None,
    ensures
        index_of_from(line, '=', a + 1) is None,
{
    let rest = line.subrange(a + 1, line.len() as int);
    lemma_index_of_from(rest, '=', 0);
    assert forall|j: int| a + 1 <= j < line.len() implies line[j] != '=' by {
        assert(rest[j - (a + 1)] == line[j]);
    }
    lemma_none_from(line, a + 1);
}

proof fn lemma_none_from(line: Seq<char>, i: int)
    requires
        0 <= i <= line.len(),
        forall|j: int| i <= j < line.len() ==> line[j] != '=',
    ensures
        index_of_from(line, '=', i) is None,
    decreases line.len() - i,
{
    if i < line.len() {
        lemma_none_from(line, i + 1);
    }
}

proof fn lemma_index_of_prefix(s: Seq<char>, t: Seq<char>, c: char, d: int, i: int)
    requires
        0 <= i <= d < s.len(),
        d < t.len(),
        index_of_from(s, c, i) == Some(d),
        forall|k: int| 0 <= k <= d ==> #[trigger] t[k] == s[k],
    ensures
        index_of_from(t, c, i) == Some(d),
    decreases d - i,
{
    lemma_index_of_from(s, c, i);
    if i < d {
        assert(s[i] != c);
        lemma_index_of_prefix(s, t, c, d, i + 1);
    }
}

proof fn lemma_digits_end_at(t: Seq<char>, i: int, e: int)
    requires
        0 <= i <= e <= t.len(),
        forall|k: int| i <= k < e ==> '0' <= #[trigger] t[k] && t[k] <= '9',
        e == t.len() || !('0' <= t[e] && t[e] <= '9'),
    ensures
        digits_end(t, i) == e,
    decreases e - i,
{
    if i < e {
        lemma_digits_end_at(t, i + 1, e);
    }
}

proof fn lemma_digits_run(s: Seq<char>, i: int)
    requires
        0 <= i <= s.len(),
    ensures
        forall|k: int| i <= k < digits_end(s, i) ==> '0' <= #[trigger] s[k] && s[k] <= '9',
        digits_end(s, i) == s.len() || !('0' <= s[digits_end(s, i)] && s[digits_end(s, i)] <= '9'),
    decreases s.len() - i,
{
    if i < s.len() && '0' <= s[i] && s[i] <= '9' {
        lemma_digits_run(s, i + 1);
    }
}

/// Cutting the fraction of seconds twice cuts it once: a cut text keeps at
/// most nine digits after its first dot.
pub proof fn law_trim_fraction_idempotent(s: Seq<char>)
    ensures
        trim_fraction_spec(trim_fraction_spec(s)) == trim_fraction_spec(s),
{
    match index_of(s, '.') {
        Some(d) => {
            lemma_index_of_from(s, '.', 0);
            lemma_digits_end(s, d + 1);
            lemma_digits_run(s, d + 1);
            let e = digits_end(s, d + 1);
            if e - (d + 1) > 9 {
                let t = s.subrange(0, d + 10) + s.subrange(e, s.len() as int);
                assert forall|k: int| 0 <= k <= d implies #[trigger] t[k] == s[k] by {}
                lemma_index_of_prefix(s, t, '.', d, 0);
                assert forall|k: int| d + 1 <= k < d + 10 implies '0' <= #[trigger] t[k] && t[k] <= '9' by {
                    assert(t[k] == s[k]);
                }
                if e < s.len() {
                    assert(t[d + 10] == s[e]);
                }
                lemma_digits_end_at(t, d + 1, d + 10);
            }
        },
        None => {},
    }
}

/// The configuration files named by the status files among the first `n`
/// files, each given by its name and its lines, in order.
pub open spec fn status_configs_upto(files: Seq<(String, Vec<String>)>, n: int) -> Seq<Seq<char>>
    decreases n,
{
    if n <= 0 || n > files.len() {
        Seq::empty()
    } else {
        let p = status_configs_upto(files, n - 1);
        if has_toml_extension(files[n - 1].0@) {
            p.push(cfg_file_spec(crate::text::string_views(files[n - 1].1@)))
        } else {
            p
        }
    }
}

/// The configuration files that have a status file, in order, given the
/// name and the lines of each file of the status folder.
pub fn available_files(files: &Vec<(String, Vec<String>)>) -> (r: Vec<String>)
    ensures
        key_sorted(r@),
        keys_of(r@).to_multiset() == status_configs_upto(files@, files@.len() as int).to_multiset(),
{
    let mut out: Vec<String> = Vec::new();
    let mut i: usize = 0;
    while i < files.len()
        invariant
            i <= files@.len(),
            keys_of(out@) == status_configs_upto(files@, i as int),
        decreases files@.len() - i,
    {
        if is_status_file(files[i].0.as_str()) {
            let cfg = get_cfg_file_from_running(&files[i].1);
            let ghost before = out@;
            out.push(cfg);
            proof {
                assert(keys_of(out@) =~= keys_of(before).push(out@.last()@));
            }
        }
        i = i + 1;
    }
    sort_by_text(out)
}

} // verus!
