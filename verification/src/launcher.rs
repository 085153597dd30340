//! Finding the Codex executable to start the app server with: the list of
//! candidates to try, the bundled copies in editor extensions (newest
//! first), and the message when none starts.
use vstd::prelude::*;
use crate::text::{chars_of, owned, push_str, text_le, text_le_exec};

verus! {

pub open spec fn texts(v: Seq<String>) -> Seq<Seq<char>> {
    v.map_values(|s: String| s@)
}

/// `list` with `c` added at the end, unless `c` is empty or already there.
pub open spec fn push_unique_spec(list: Seq<Seq<char>>, c: Seq<char>) -> Seq<Seq<char>> {
    if c.len() > 0 && !list.contains(c) {
        list.push(c)
    } else {
        list
    }
}

/// The first `n` wanted candidates, each once, empty ones left out.
pub open spec fn unique_upto(wanted: Seq<Seq<char>>, n: int) -> Seq<Seq<char>>
    decreases n,
{
    if n <= 0 {
        seq![]
    } else {
        push_unique_spec(unique_upto(wanted, n - 1), wanted[n - 1])
    }
}

/// No candidate is empty and none comes twice.
pub open spec fn well_formed_candidates(list: Seq<Seq<char>>) -> bool {
    &&& forall|i: int| 0 <= i < list.len() ==> (#[trigger] list[i]).len() > 0
    &&& forall|i: int, j: int| 0 <= i < j < list.len() ==> list[i] != list[j]
}

fn contains_text(list: &Vec<String>, c: &String) -> (r: bool)
    ensures
        r == texts(list@).contains(c@),
{
    let mut i: usize = 0;
    while i < list.len()
        invariant
            i <= list@.len(),
            forall|k: int| 0 <= k < i ==> list@[k]@ != c@,
        decreases list@.len() - i,
    {
        if list[i] == *c {
            proof {
                assert(texts(list@)[i as int] == c@);
            }
            return true;
        }
        i += 1;
    }
    proof {
        if texts(list@).contains(c@) {
            let k = choose|k: int| 0 <= k < texts(list@).len() && texts(list@)[k] == c@;
            assert(list@[k]@ == c@);
        }
    }
    false
}

/// Adds a candidate unless it is empty or already listed.
pub fn push_unique(candidates: &mut Vec<String>, candidate: String)
    ensures
        texts(final(candidates)@) == push_unique_spec(texts(old(candidates)@), candidate@),
        well_formed_candidates(texts(old(candidates)@)) ==> well_formed_candidates(
            texts(final(candidates)@),
        ),
{
    let empty = candidate.as_str().is_empty();
    if !empty && !contains_text(candidates, &candidate) {
        let ghost before = texts(candidates@);
        candidates.push(candidate);
        proof {
            assert(texts(candidates@) =~= before.push(candidate@));
            if well_formed_candidates(before) {
                let after = texts(candidates@);
                assert forall|i: int, j: int| 0 <= i < j < after.len() implies after[i]
                    != after[j] by {
                    if j == before.len() {
                        assert(after[i] == before[i]);
                        if after[i] == after[j] {
                            assert(before.contains(candidate@));
                        }
                    }
                }
            }
        }
    }
}

/// The wanted candidates in order, each once, without empty ones.
pub fn unique_candidates(wanted: &Vec<String>) -> (r: Vec<String>)
    ensures
        texts(r@) == unique_upto(texts(wanted@), wanted@.len() as int),
        well_formed_candidates(texts(r@)),
{
    let mut out: Vec<String> = Vec::new();
    let mut i: usize = 0;
    while i < wanted.len()
        invariant
            i <= wanted@.len(),
            texts(out@) == unique_upto(texts(wanted@), i as int),
            well_formed_candidates(texts(out@)),
        decreases wanted@.len() - i,
    {
        push_unique(&mut out, crate::domain::copy_string(&wanted[i]));
        i += 1;
    }
    out
}

/// Where the app looks for the Codex executable: the paths named by its
/// two environment variables, the user folders it searches, the platform,
/// and the executables bundled in editor extensions (found on disk, newest
/// extension first).
pub struct CandidateSources {
    pub quotadial_path: Option<String>,
    pub monitor_path: Option<String>,
    pub local_app_data: Option<String>,
    pub app_data: Option<String>,
    pub user_profile: Option<String>,
    pub home: Option<String>,
    pub windows: bool,
    pub macos: bool,
    pub extension_executables: Vec<String>,
}

/// What `Path::new(base).join(rest)` gives, as text, by the platform's path
/// rules.
pub uninterp spec fn joined_path(base: Seq<char>, rest: Seq<char>) -> Seq<char>;

/// `Path::join`, as text.
///
/// Trusted: the result is named `joined_path` of the two texts; both are
/// UTF-8, so the joined path converts back to text without loss.
#[verifier::external_body]
fn join_path(base: &str, rest: &str) -> (r: String)
    ensures
        r@ == joined_path(base@, rest@),
{
    std::path::Path::new(base).join(rest).to_string_lossy().into_owned()
}

/// The text, where there is one.
pub open spec fn opt_candidate(o: Option<String>) -> Seq<Seq<char>> {
    match o {
        Some(t) => seq![t@],
        None => seq![],
    }
}

/// `rest` under the folder `base`, where there is one.
pub open spec fn opt_joined(base: Option<String>, rest: Seq<char>) -> Seq<Seq<char>> {
    match base {
        Some(b) => seq![joined_path(b@, rest)],
        None => seq![],
    }
}

/// The Windows candidates: the command names, the WindowsApps and npm
/// shims, the user's own copy, then the editors' bundled copies.
pub open spec fn windows_candidates(s: CandidateSources) -> Seq<Seq<char>> {
    seq!["codex.exe"@, "codex.cmd"@] + opt_joined(s.local_app_data, "Microsoft/WindowsApps/codex.exe"@)
        + opt_joined(s.app_data, "npm/codex.cmd"@) + opt_joined(
        s.user_profile,
        ".local/bin/codex.exe"@,
    ) + texts(s.extension_executables@)
}

/// The macOS candidates: the copy inside the ChatGPT app, then the user's
/// own copy.
pub open spec fn macos_candidates(s: CandidateSources) -> Seq<Seq<char>> {
    seq!["/Applications/ChatGPT.app/Contents/Resources/codex"@] + opt_joined(
        s.home,
        ".local/bin/codex"@,
    )
}

/// The search order: `QUOTADIAL_CODEX_PATH`, `CODEX_MONITOR_CODEX_PATH`,
/// `codex` on `PATH`, then the platform's own places.
pub open spec fn candidate_order(s: CandidateSources) -> Seq<Seq<char>> {
    opt_candidate(s.quotadial_path) + opt_candidate(s.monitor_path) + seq!["codex"@] + (if s.windows {
        windows_candidates(s)
    } else {
        seq![]
    }) + (if s.macos {
        macos_candidates(s)
    } else {
        seq![]
    })
}

fn push_text(v: &mut Vec<String>, t: &str)
    ensures
        texts(final(v)@) == texts(old(v)@).push(t@),
{
    let ghost before = texts(v@);
    v.push(owned(t));
    proof {
        assert(texts(v@) =~= before.push(t@));
    }
}

fn push_opt(v: &mut Vec<String>, o: &Option<String>)
    ensures
        texts(final(v)@) == texts(old(v)@) + opt_candidate(*o),
{
    let ghost before = texts(v@);
    match o {
        Some(t) => {
            v.push(crate::domain::copy_string(t));
            proof {
                assert(texts(v@) =~= before + opt_candidate(*o));
            }
        },
        None => {
            proof {
                assert(texts(v@) =~= before + opt_candidate(*o));
            }
        },
    }
}

fn push_joined(v: &mut Vec<String>, base: &Option<String>, rest: &str)
    ensures
        texts(final(v)@) == texts(old(v)@) + opt_joined(*base, rest@),
{
    let ghost before = texts(v@);
    match base {
        Some(b) => {
            v.push(join_path(b.as_str(), rest));
            proof {
                assert(texts(v@) =~= before + opt_joined(*base, rest@));
            }
        },
        None => {
            proof {
                assert(texts(v@) =~= before + opt_joined(*base, rest@));
            }
        },
    }
}

/// The executables to try, in the search order, each once, none empty.
pub fn codex_candidates(s: &CandidateSources) -> (r: Vec<String>)
    ensures
        texts(r@) == unique_upto(candidate_order(*s), candidate_order(*s).len() as int),
        well_formed_candidates(texts(r@)),
{
    let mut wanted: Vec<String> = Vec::new();
    push_opt(&mut wanted, &s.quotadial_path);
    push_opt(&mut wanted, &s.monitor_path);
    push_text(&mut wanted, "codex");
    let ghost common = texts(wanted@);
    if s.windows {
        push_text(&mut wanted, "codex.exe");
        push_text(&mut wanted, "codex.cmd");
        push_joined(&mut wanted, &s.local_app_data, "Microsoft/WindowsApps/codex.exe");
        push_joined(&mut wanted, &s.app_data, "npm/codex.cmd");
        push_joined(&mut wanted, &s.user_profile, ".local/bin/codex.exe");
        let mut i: usize = 0;
        let ghost base = texts(wanted@);
        while i < s.extension_executables.len()
            invariant
                i <= s.extension_executables@.len(),
                texts(wanted@) == base + texts(s.extension_executables@).take(i as int),
            decreases s.extension_executables@.len() - i,
        {
            let ghost before = texts(wanted@);
            wanted.push(crate::domain::copy_string(&s.extension_executables[i]));
            proof {
                assert(texts(wanted@) =~= before.push(s.extension_executables@[i as int]@));
                assert(texts(s.extension_executables@).take(i + 1) =~= texts(
                    s.extension_executables@,
                ).take(i as int).push(s.extension_executables@[i as int]@));
            }
            i += 1;
        }
        proof {
            assert(texts(s.extension_executables@).take(s.extension_executables@.len() as int)
                =~= texts(s.extension_executables@));
            assert(texts(wanted@) =~= common + windows_candidates(*s));
        }
    }
    let ghost after_windows = texts(wanted@);
    if s.macos {
        push_text(&mut wanted, "/Applications/ChatGPT.app/Contents/Resources/codex");
        push_joined(&mut wanted, &s.home, ".local/bin/codex");
        proof {
            assert(texts(wanted@) =~= after_windows + macos_candidates(*s));
        }
    }
    proof {
        assert(texts(wanted@) =~= candidate_order(*s));
    }
    unique_candidates(&wanted)
}

/// Whether `s` begins with `p`.
pub open spec fn starts_with(s: Seq<char>, p: Seq<char>) -> bool {
    p.len() <= s.len() && s.take(p.len() as int) == p
}

/// `s` (in descending order) with `x` put after every name not below it.
pub open spec fn insert_desc(s: Seq<Seq<char>>, x: Seq<char>) -> Seq<Seq<char>>
    decreases s.len(),
{
    if s.len() == 0 {
        seq![x]
    } else if text_le(x, s.last()) {
        s.push(x)
    } else {
        insert_desc(s.drop_last(), x).push(s.last())
    }
}

/// The names among the first `n` that are ChatGPT extension directories,
/// newest (greatest) name first.
pub open spec fn extensions_upto(names: Seq<Seq<char>>, n: int) -> Seq<Seq<char>>
    decreases n,
{
    if n <= 0 {
        seq![]
    } else {
        let prev = extensions_upto(names, n - 1);
        if starts_with(names[n - 1], "openai.chatgpt-"@) {
            insert_desc(prev, names[n - 1])
        } else {
            prev
        }
    }
}

proof fn lemma_insert_desc_at(s: Seq<Seq<char>>, x: Seq<char>, j: int)
    requires
        0 <= j <= s.len(),
        j == 0 || text_le(x, s[j - 1]),
        forall|k: int| j <= k < s.len() ==> !text_le(x, #[trigger] s[k]),
    ensures
        insert_desc(s, x) == s.insert(j, x),
    decreases s.len() - j,
{
    if s.len() == 0 {
        assert(s.insert(j, x) =~= seq![x]);
    } else if j == s.len() {
        assert(s.insert(j, x) =~= s.push(x));
    } else {
        let t = s.drop_last();
        lemma_insert_desc_at(t, x, j);
        assert(s.insert(j, x) =~= t.insert(j, x).push(s.last()));
    }
}

fn is_extension_dir(name: &String) -> (r: bool)
    ensures
        r == starts_with(name@, "openai.chatgpt-"@),
{
    let prefix = chars_of("openai.chatgpt-");
    let chars = chars_of(name.as_str());
    if chars.len() < prefix.len() {
        return false;
    }
    let mut i: usize = 0;
    while i < prefix.len()
        invariant
            i <= prefix@.len() <= chars@.len(),
            prefix@ == "openai.chatgpt-"@,
            chars@ == name@,
            forall|k: int| 0 <= k < i ==> chars@[k] == prefix@[k],
        decreases prefix@.len() - i,
    {
        if chars[i] != prefix[i] {
            proof {
                assert(name@.take(prefix@.len() as int)[i as int] != prefix@[i as int]);
            }
            return false;
        }
        i += 1;
    }
    proof {
        assert(name@.take(prefix@.len() as int) =~= prefix@);
    }
    true
}

/// The ChatGPT extension directories among `names` (directory names under
/// an editor's extensions folder), newest name first.
pub fn newest_extensions_first(names: &Vec<String>) -> (r: Vec<String>)
    ensures
        texts(r@) == extensions_upto(texts(names@), names@.len() as int),
{
    let mut out: Vec<String> = Vec::new();
    let mut i: usize = 0;
    while i < names.len()
        invariant
            i <= names@.len(),
            texts(out@) == extensions_upto(texts(names@), i as int),
        decreases names@.len() - i,
    {
        let name = &names[i];
        if is_extension_dir(name) {
            let mut j = out.len();
            while j > 0 && !text_le_exec(name, &out[j - 1])
                invariant
                    j <= out@.len(),
                    texts(out@) == extensions_upto(texts(names@), i as int),
                    forall|k: int| j <= k < out@.len() ==> !text_le(name@, #[trigger] texts(out@)[k]),
                decreases j,
            {
                j -= 1;
            }
            let ghost before = texts(out@);
            proof {
                lemma_insert_desc_at(before, name@, j as int);
            }
            out.insert(j, crate::domain::copy_string(name));
            proof {
                assert(texts(out@) =~= before.insert(j as int, name@));
            }
        }
        i += 1;
    }
    out
}

/// The message when no candidate starts the app server, with the last
/// failure where there was one.
pub open spec fn failure_message(last: Option<Seq<char>>) -> Seq<char> {
    "Codex CLI was not found or could not start app-server."@ + (match last {
        Some(f) => " Last error: "@ + f + "."@,
        None => Seq::empty(),
    }) + " Set QUOTADIAL_CODEX_PATH to a working codex executable."@
}

pub fn launch_failure_message(last_failure: Option<String>) -> (r: String)
    ensures
        r@ == failure_message(crate::parser::opt_text(last_failure)),
{
    let mut s = owned("Codex CLI was not found or could not start app-server.");
    match &last_failure {
        Some(f) => {
            push_str(&mut s, " Last error: ");
            push_str(&mut s, f.as_str());
            push_str(&mut s, ".");
        },
        None => {},
    }
    push_str(&mut s, " Set QUOTADIAL_CODEX_PATH to a working codex executable.");
    proof {
        let a = "Codex CLI was not found or could not start app-server."@;
        let z = " Set QUOTADIAL_CODEX_PATH to a working codex executable."@;
        match last_failure {
            Some(f) => {
                assert(s@ =~= a + (" Last error: "@ + f@ + "."@) + z);
            },
            None => {
                assert(s@ =~= a + Seq::<char>::empty() + z);
            },
        }
    }
    s
}

} // verus!
