//! Tasks, configuration, defaults and validation.

use vstd::prelude::*;
use crate::json::{dec_digits, quoted, append_quoted};

verus! {

/// The default Chrome-like user agent.
pub fn default_user_agent() -> (r: &'static str)
    ensures
        r@ == spec_default_user_agent(),
{
    "Mozilla/5.0 (Windows NT 10.0; Win64; x64) AppleWebKit/537.36 (KHTML, like Gecko) Chrome/131.0.0.0 Safari/537.36"
}

/// The default user agent, as specification text.
pub open spec fn spec_default_user_agent() -> Seq<char> {
    "Mozilla/5.0 (Windows NT 10.0; Win64; x64) AppleWebKit/537.36 (KHTML, like Gecko) Chrome/131.0.0.0 Safari/537.36"@
}

/// One resource to download: where from, where to, and how to present it.
/// Immutable after construction.
#[derive(Debug, Clone)]
pub struct DownloadTask {
    pub url: String,
    pub save_path: String,
    pub show_name: String,
    pub id: String,
}

/// Optional knobs of the binding-level API.
#[derive(Debug, Clone, Default)]
pub struct DownloadOptions {
    pub thread_count: Option<usize>,
    pub chunk_size_mb: Option<usize>,
    pub user_agent: Option<String>,
    pub use_callback_url: bool,
    pub remote_callback_url: Option<String>,
    pub use_socket: Option<bool>,
    pub is_multiple: Option<bool>,
}

/// A session's configuration. The in-process callback itself is a foreign
/// function pointer and lives with the caller; here only its presence.
#[derive(Debug, Clone)]
pub struct DownloadConfig {
    pub tasks: Vec<DownloadTask>,
    pub thread_count: usize,
    pub chunk_size_mb: usize,
    pub has_callback: bool,
    pub use_callback_url: bool,
    pub callback_url: Option<String>,
    pub use_socket: Option<bool>,
    pub show_name: String,
    pub user_agent: String,
}

/// Which sink a session delivers its events through.
#[derive(Debug, Clone, PartialEq, Eq)]
pub enum SinkChoice {
    /// No remote sink; events go to the in-process callback if any.
    NoSink,
    /// One WebSocket connection to this URL.
    WebSock(String),
    /// One length-prefixed plain TCP connection to this URL.
    Tcp(String),
}

/// Which remote sink a configuration asks for: a remote sink exists only
/// when a callback URL is given and the socket flag is present; the flag
/// picks plain TCP over WebSocket.
pub fn select_sink(config: &DownloadConfig) -> (r: SinkChoice)
    ensures
        r == (match config.callback_url {
            Option::Some(url) => if config.use_callback_url {
                match config.use_socket {
                    Option::Some(true) => SinkChoice::Tcp(url),
                    Option::Some(false) => SinkChoice::WebSock(url),
                    Option::None => SinkChoice::NoSink,
                }
            } else {
                SinkChoice::NoSink
            },
            Option::None => SinkChoice::NoSink,
        }),
{
    if config.use_callback_url {
        match &config.callback_url {
            Option::Some(url) => match config.use_socket {
                Option::Some(true) => SinkChoice::Tcp(url.clone()),
                Option::Some(false) => SinkChoice::WebSock(url.clone()),
                Option::None => SinkChoice::NoSink,
            },
            Option::None => SinkChoice::NoSink,
        }
    } else {
        SinkChoice::NoSink
    }
}

/// Relies on `num_cpus::get`: the number of logical CPUs of this machine,
/// documented to be at least 1.
#[verifier::external_body]
fn cpu_count() -> (r: usize)
    ensures
        1 <= r,
{
    num_cpus::get()
}

/// Relies on `uuid::Uuid::new_v4` and its hyphenated `Display` form: a
/// freshly drawn random identifier, rendered as 36 characters. The value
/// is random; nothing beyond its length is promised.
#[verifier::external_body]
fn fresh_task_id() -> (r: String)
    ensures
        r@.len() == 36,
{
    uuid::Uuid::new_v4().to_string()
}

/// Twice a probed CPU count, capped so the doubling stays in machine
/// range.
pub open spec fn spec_fallback_thread_count(cpus: int) -> int {
    if cpus <= 0x3FFF_FFFF {
        2 * cpus
    } else {
        0x7FFF_FFFE
    }
}

/// The fallback thread count for a given number of logical CPUs: twice
/// that number (capped at the machine limit).
pub fn fallback_thread_count(cpus: usize) -> (r: usize)
    requires
        1 <= cpus,
    ensures
        r == spec_fallback_thread_count(cpus as int),
        2 <= r,
{
    if cpus > 0x3FFF_FFFF {
        0x7FFF_FFFE
    } else {
        cpus * 2
    }
}

/// The thread count actually used: the requested one, or — when the
/// request is zero — twice the number of logical CPUs this machine
/// reports.
pub fn resolve_thread_count(requested: usize) -> (r: usize)
    ensures
        requested != 0 ==> r == requested,
        requested == 0 ==> exists|cpus: int|
            1 <= cpus && r == #[trigger] spec_fallback_thread_count(cpus),
        requested == 0 ==> 2 <= r,
        1 <= r,
{
    if requested == 0 {
        let cpus = cpu_count();
        let r = fallback_thread_count(cpus);
        proof {
            assert(r == spec_fallback_thread_count(cpus as int));
        }
        r
    } else {
        requested
    }
}

/// The chunk size actually used, in MiB: the requested one, or 10 when the
/// request is zero.
pub fn resolve_chunk_size_mb(requested: usize) -> (r: usize)
    ensures
        requested != 0 ==> r == requested,
        requested == 0 ==> r == 10,
        1 <= r,
{
    if requested == 0 {
        10
    } else {
        requested
    }
}

/// A configuration with every knob at its default: events through the
/// in-process path only, the default user agent, resolved thread count and
/// chunk size.
pub fn default_config(tasks: Vec<DownloadTask>, thread_count: usize, chunk_size_mb: usize) -> (r:
    DownloadConfig)
    ensures
        r.tasks == tasks,
        thread_count != 0 ==> r.thread_count == thread_count,
        thread_count == 0 ==> exists|cpus: int|
            1 <= cpus && r.thread_count == #[trigger] spec_fallback_thread_count(cpus),
        thread_count == 0 ==> 2 <= r.thread_count,
        chunk_size_mb != 0 ==> r.chunk_size_mb == chunk_size_mb,
        chunk_size_mb == 0 ==> r.chunk_size_mb == 10,
        !r.has_callback && !r.use_callback_url,
        r.callback_url is None && r.use_socket is None,
        r.user_agent@ == spec_default_user_agent(),
{
    DownloadConfig {
        tasks,
        thread_count: resolve_thread_count(thread_count),
        chunk_size_mb: resolve_chunk_size_mb(chunk_size_mb),
        has_callback: false,
        use_callback_url: false,
        callback_url: None,
        use_socket: None,
        show_name: String::new(),
        user_agent: String::from_str(default_user_agent()),
    }
}

/// A configuration is acceptable when it names at least one task.
pub open spec fn config_valid(config: DownloadConfig) -> bool {
    config.tasks@.len() > 0
}

// ---------------------------------------------------------------------------
// Show names derived from URLs
// ---------------------------------------------------------------------------
/// The suffix after the last `/`, or the whole text without one.
pub open spec fn after_last_slash(s: Seq<char>) -> Seq<char>
    decreases s.len(),
{
    if s.len() == 0 {
        s
    } else if s.last() == '/' {
        Seq::empty()
    } else {
        after_last_slash(s.drop_last()).push(s.last())
    }
}

/// The prefix before the first `?`, or the whole text without one.
pub open spec fn before_first_query(s: Seq<char>) -> Seq<char>
    decreases s.len(),
{
    if s.len() == 0 {
        s
    } else if s[0] == '?' {
        Seq::empty()
    } else {
        seq![s[0]] + before_first_query(s.skip(1))
    }
}

/// The display name a URL suggests: its basename with any query stripped.
pub open spec fn basename_chars(url: Seq<char>) -> Seq<char> {
    before_first_query(after_last_slash(url))
}

/// If nothing from position `k` on is a slash and a slash stands right
/// before `k` (or `k` is the start), the suffix from `k` is the basename.
proof fn lemma_after_last_slash_at(s: Seq<char>, k: int)
    requires
        0 <= k <= s.len(),
        forall|j: int| k <= j < s.len() ==> s[j] != '/',
        k == 0 || s[k - 1] == '/',
    ensures
        after_last_slash(s) == s.skip(k),
    decreases s.len(),
{
    if s.len() == 0 {
        assert(s.skip(0) =~= s);
    } else if k == s.len() {
        assert(s.last() == '/');
        assert(s.skip(k) =~= Seq::<char>::empty());
    } else {
        assert(s[s.len() - 1] != '/');
        assert(forall|j: int| k <= j < s.drop_last().len() ==> s.drop_last()[j] == s[j]);
        lemma_after_last_slash_at(s.drop_last(), k);
        assert(after_last_slash(s) == s.drop_last().skip(k).push(s.last()));
        assert(s.drop_last().skip(k).push(s.last()) =~= s.skip(k));
    }
}

/// If nothing before position `q` is a question mark and `q` is the end or
/// a question mark, the prefix up to `q` is the query-stripped text.
proof fn lemma_before_first_query_at(s: Seq<char>, q: int)
    requires
        0 <= q <= s.len(),
        forall|j: int| 0 <= j < q ==> s[j] != '?',
        q == s.len() || s[q] == '?',
    ensures
        before_first_query(s) == s.take(q),
    decreases s.len(),
{
    if s.len() == 0 {
        assert(s.take(0) =~= s);
    } else if q == 0 {
        assert(s.take(0) =~= Seq::<char>::empty());
    } else {
        assert(forall|j: int| 0 <= j < q - 1 ==> s.skip(1)[j] == s[j + 1]);
        assert(q - 1 == s.skip(1).len() || s.skip(1)[q - 1] == '?');
        lemma_before_first_query_at(s.skip(1), q - 1);
        assert(seq![s[0]] + s.skip(1).take(q - 1) =~= s.take(q));
    }
}

/// The basename of a URL: everything after the last `/`, cut at the first
/// `?`.
pub fn url_basename(url: &str) -> (r: String)
    ensures
        r@ == basename_chars(url@),
{
    let n = url.unicode_len();
    let mut start: usize = 0;
    let mut i: usize = 0;
    while i < n
        invariant
            n == url@.len(),
            i <= n,
            start <= i,
            forall|j: int| start <= j < i ==> url@[j] != '/',
            start == 0 || url@[start - 1] == '/',
        decreases n - i,
    {
        if url.get_char(i) == '/' {
            start = i + 1;
        }
        i = i + 1;
    }
    proof {
        lemma_after_last_slash_at(url@, start as int);
    }
    let ghost base = url@.skip(start as int);
    let mut out = String::new();
    let mut k: usize = start;
    while k < n
        invariant
            n == url@.len(),
            start <= n,
            base == url@.skip(start as int),
            after_last_slash(url@) == base,
            start <= k <= n,
            forall|j: int| start <= j < k ==> url@[j] != '?',
            out@ == url@.skip(start as int).take(k - start),
            k < n ==> url@[k as int] == base[k - start],
        decreases n - k,
    {
        let c = url.get_char(k);
        if c == '?' {
            proof {
                assert(forall|j: int| 0 <= j < k - start ==> base[j] == url@[j + start]);
                lemma_before_first_query_at(base, k - start);
            }
            return out;
        }
        crate::json::push_char(&mut out, c);
        proof {
            assert(out@ =~= url@.skip(start as int).take(k + 1 - start));
        }
        k = k + 1;
    }
    proof {
        assert(forall|j: int| 0 <= j < base.len() ==> base[j] == url@[j + start]);
        lemma_before_first_query_at(base, n - start);
        assert(base.take(n - start) =~= base);
    }
    out
}

/// The display name a task gets: the provided one if any, else the URL's
/// basename; an empty result is replaced by `task_` and the task's index.
pub open spec fn resolved_show_name(provided: Option<Seq<char>>, url: Seq<char>, i: nat) -> Seq<
    char,
> {
    let base = match provided {
        Some(p) => p,
        None => basename_chars(url),
    };
    if base.len() == 0 {
        "task_"@ + dec_digits(i)
    } else {
        base
    }
}

/// Build the task list of a session: one task per URL, with display names
/// resolved as `resolved_show_name` says and a fresh 36-character
/// identifier wherever none is provided.
pub fn build_tasks(
    urls: &Vec<String>,
    save_paths: &Vec<String>,
    show_names: Option<&Vec<String>>,
    ids: Option<&Vec<String>>,
) -> (r: Vec<DownloadTask>)
    requires
        urls@.len() == save_paths@.len(),
        urls@.len() <= 0xFFFF_FFFF,
    ensures
        r@.len() == urls@.len(),
        forall|i: int|
            0 <= i < r@.len() ==> (#[trigger] r@[i]).url == urls@[i] && r@[i].save_path
                == save_paths@[i],
        forall|i: int|
            0 <= i < r@.len() ==> (#[trigger] r@[i]).show_name@ == resolved_show_name(
                (match show_names {
                    Some(sn) => if 0 <= i < sn@.len() {
                        Some(sn@[i]@)
                    } else {
                        None
                    },
                    None => None,
                }),
                urls@[i]@,
                i as nat,
            ),
        forall|i: int|
            0 <= i < r@.len() ==> (match ids {
                Some(provided) => if 0 <= i < provided@.len() {
                    (#[trigger] r@[i]).id == provided@[i]
                } else {
                    r@[i].id@.len() == 36
                },
                None => r@[i].id@.len() == 36,
            }),
{
    let mut out: Vec<DownloadTask> = Vec::new();
    let mut i: usize = 0;
    while i < urls.len()
        invariant
            urls@.len() == save_paths@.len(),
            urls@.len() <= 0xFFFF_FFFF,
            i <= urls@.len(),
            out@.len() == i,
            forall|j: int|
                0 <= j < i ==> (#[trigger] out@[j]).url == urls@[j] && out@[j].save_path
                    == save_paths@[j],
            forall|j: int|
                0 <= j < i ==> (#[trigger] out@[j]).show_name@ == resolved_show_name(
                    (match show_names {
                        Some(sn) => if 0 <= j < sn@.len() {
                            Some(sn@[j]@)
                        } else {
                            None
                        },
                        None => None,
                    }),
                    urls@[j]@,
                    j as nat,
                ),
            forall|j: int|
                0 <= j < i ==> (match ids {
                    Some(provided) => if 0 <= j < provided@.len() {
                        (#[trigger] out@[j]).id == provided@[j]
                    } else {
                        out@[j].id@.len() == 36
                    },
                    None => out@[j].id@.len() == 36,
                }),
        decreases urls@.len() - i,
    {
        let provided_name: Option<String> = match show_names {
            Some(sn) => if i < sn.len() {
                Some(sn[i].clone())
            } else {
                None
            },
            None => None,
        };
        let base = match &provided_name {
            Some(p) => p.clone(),
            None => url_basename(urls[i].as_str()),
        };
        let show_name = if base.as_str().is_empty() {
            let mut t = String::new();
            t.append("task_");
            crate::json::append_u64(&mut t, i as u64);
            proof {
                assert(t@ =~= "task_"@ + dec_digits(i as nat));
            }
            t
        } else {
            base
        };
        let id = match ids {
            Some(provided) => if i < provided.len() {
                provided[i].clone()
            } else {
                fresh_task_id()
            },
            None => fresh_task_id(),
        };
        out.push(
            DownloadTask {
                url: urls[i].clone(),
                save_path: save_paths[i].clone(),
                show_name,
                id,
            },
        );
        i = i + 1;
    }
    out
}

// ---------------------------------------------------------------------------
// The tasks JSON of the foreign-function surface
// ---------------------------------------------------------------------------
/// The JSON text of one task object.
pub open spec fn task_json(t: DownloadTask) -> Seq<char> {
    "{\"url\":"@ + quoted(t.url@) + ",\"save_path\":"@ + quoted(t.save_path@) + ",\"show_name\":"@
        + quoted(t.show_name@) + ",\"id\":"@ + quoted(t.id@) + "}"@
}

/// The inner text of the tasks array: task objects joined by commas.
pub open spec fn tasks_json_inner(ts: Seq<DownloadTask>) -> Seq<char>
    decreases ts.len(),
{
    if ts.len() == 0 {
        Seq::empty()
    } else if ts.len() == 1 {
        task_json(ts[0])
    } else {
        tasks_json_inner(ts.drop_last()) + seq![','] + task_json(ts.last())
    }
}

/// The JSON array of task objects handed across the foreign-function
/// surface.
pub open spec fn tasks_json(ts: Seq<DownloadTask>) -> Seq<char> {
    seq!['['] + tasks_json_inner(ts) + seq![']']
}

/// Append one task object as JSON.
fn append_task_json(out: &mut String, t: &DownloadTask)
    ensures
        final(out)@ == old(out)@ + task_json(*t),
{
    out.append("{\"url\":");
    append_quoted(out, t.url.as_str());
    out.append(",\"save_path\":");
    append_quoted(out, t.save_path.as_str());
    out.append(",\"show_name\":");
    append_quoted(out, t.show_name.as_str());
    out.append(",\"id\":");
    append_quoted(out, t.id.as_str());
    out.append("}");
    proof {
        assert(out@ =~= old(out)@ + task_json(*t));
    }
}

/// Encode a task list as the JSON array the foreign-function surface
/// carries.
pub fn encode_tasks_json(tasks: &Vec<DownloadTask>) -> (r: String)
    ensures
        r@ == tasks_json(tasks@),
{
    let mut out = String::new();
    crate::json::push_char(&mut out, '[');
    let mut i: usize = 0;
    while i < tasks.len()
        invariant
            i <= tasks@.len(),
            out@ == seq!['['] + tasks_json_inner(tasks@.take(i as int)),
        decreases tasks@.len() - i,
    {
        if i > 0 {
            crate::json::push_char(&mut out, ',');
        }
        append_task_json(&mut out, &tasks[i]);
        proof {
            assert(tasks@.take(i + 1).drop_last() =~= tasks@.take(i as int));
            assert(tasks@.take(i + 1).last() == tasks@[i as int]);
            if i == 0 {
                assert(out@ =~= seq!['['] + tasks_json_inner(tasks@.take(1)));
            } else {
                assert(out@ =~= seq!['['] + tasks_json_inner(tasks@.take(i + 1)));
            }
        }
        i = i + 1;
    }
    crate::json::push_char(&mut out, ']');
    proof {
        assert(tasks@.take(tasks@.len() as int) =~= tasks@);
        assert(out@ =~= tasks_json(tasks@));
    }
    out
}

} // verus!
