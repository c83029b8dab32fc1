//! Building the script catalogue from the files of the scripts directory.

use std::path::PathBuf;
use vstd::prelude::*;
use vstd::string::StringExecFns;

use crate::app::{ScriptEntry, ScriptEntryView};
use crate::metadata::{parse_outcome, parse_script_metadata};
use crate::order::{
    key_le, key_views, law_stable_order_unique, lemma_key_order, lex_lt, stable_order,
    stable_sort_by_keys, SortKey,
};
use crate::text::chars_of;

verus! {

/// A regular file found in the scripts directory, as read from disk.
pub struct ScriptSource {
    pub path: PathBuf,
    /// The file name, for messages.
    pub file_name: String,
    /// The raw bytes of the file name: the files of one directory are
    /// taken in the byte order of their names, as their paths compare.
    pub name_bytes: Vec<u8>,
    /// The text of the file, or the message of the failure to read it.
    pub content: Result<String, String>,
}

/// What a source holds, as plain values.
pub struct ScriptSourceView {
    pub path: PathBuf,
    pub file_name: Seq<char>,
    pub name_bytes: Seq<u8>,
    pub content: Result<Seq<char>, Seq<char>>,
}

impl View for ScriptSource {
    type V = ScriptSourceView;

    open spec fn view(&self) -> ScriptSourceView {
        ScriptSourceView {
            path: self.path,
            file_name: self.file_name@,
            name_bytes: self.name_bytes@,
            content: match self.content {
                Ok(t) => Ok(t@),
                Err(m) => Err(m@),
            },
        }
    }
}

/// The Unicode lowercase mapping of a text, as `str::to_lowercase` gives it.
pub uninterp spec fn lowercase(s: Seq<char>) -> Seq<char>;

/// Lowercases `s` with `str::to_lowercase`; the result is `lowercase(s@)`.
#[verifier::external_body]
fn to_lowercase(s: &str) -> (r: String)
    ensures
        r@ == lowercase(s@),
{
    s.to_lowercase()
}

/// The code points of a text.
pub open spec fn codes(s: Seq<char>) -> Seq<u32> {
    Seq::new(s.len(), |i: int| s[i] as u32)
}

/// The bytes of a name, widened.
pub open spec fn byte_codes(s: Seq<u8>) -> Seq<u32> {
    Seq::new(s.len(), |i: int| s[i] as u32)
}

/// The order of source files: by the bytes of their names.
pub open spec fn source_key(s: ScriptSourceView) -> (Seq<u32>, Seq<u32>) {
    (byte_codes(s.name_bytes), Seq::empty())
}

/// The order of scripts: by category, then by name, both compared
/// lowercased, code point by code point.
pub open spec fn script_key(e: ScriptEntryView) -> (Seq<u32>, Seq<u32>) {
    (folded_codes(e.category), folded_codes(e.name))
}

/// The text holds ASCII characters only.
pub open spec fn is_ascii_text(s: Seq<char>) -> bool {
    forall|i: int| 0 <= i < s.len() ==> (s[i] as u32) < 128
}

/// The lowercase of an ASCII code: `A`..`Z` become `a`..`z`, every other
/// code stays.
pub open spec fn ascii_lower_code(c: u32) -> u32 {
    if 65 <= c <= 90 {
        (c + 32) as u32
    } else {
        c
    }
}

/// The code points of the lowercase of a text, as `str::to_lowercase`
/// gives it. On ASCII text that mapping lowercases `A`..`Z` and keeps every
/// other character, so there it is spelled out.
pub open spec fn folded_codes(s: Seq<char>) -> Seq<u32> {
    if is_ascii_text(s) {
        Seq::new(s.len(), |i: int| ascii_lower_code(s[i] as u32))
    } else {
        codes(lowercase(s))
    }
}

/// What a source file gives: an entry, or the reason it was skipped.
pub open spec fn source_outcome(s: ScriptSourceView) -> Result<ScriptEntryView, Seq<char>> {
    match s.content {
        Ok(text) => parse_outcome(text, s.file_name, s.path),
        Err(m) => Err(m),
    }
}

/// The entries of the sources that parse, in order.
pub open spec fn entries_of(srcs: Seq<ScriptSourceView>) -> Seq<ScriptEntryView>
    decreases srcs.len(),
{
    if srcs.len() == 0 {
        Seq::empty()
    } else {
        match source_outcome(srcs.last()) {
            Ok(e) => entries_of(srcs.drop_last()).push(e),
            Err(_) => entries_of(srcs.drop_last()),
        }
    }
}

/// The warning for each source that does not parse, in order.
pub open spec fn warnings_of(srcs: Seq<ScriptSourceView>) -> Seq<Seq<char>>
    decreases srcs.len(),
{
    if srcs.len() == 0 {
        Seq::empty()
    } else {
        match source_outcome(srcs.last()) {
            Ok(_) => warnings_of(srcs.drop_last()),
            Err(m) => warnings_of(srcs.drop_last()).push("Skipped — "@ + m),
        }
    }
}

/// The plain views of a sequence of sources.
pub open spec fn source_views(v: Seq<ScriptSource>) -> Seq<ScriptSourceView> {
    Seq::new(v.len(), |i: int| v[i]@)
}

/// The plain views of a sequence of entries.
pub open spec fn entry_views(v: Seq<ScriptEntry>) -> Seq<ScriptEntryView> {
    Seq::new(v.len(), |i: int| v[i]@)
}

/// The plain views of a sequence of strings.
pub open spec fn string_views(v: Seq<String>) -> Seq<Seq<char>> {
    Seq::new(v.len(), |i: int| v[i]@)
}

/// `s` rearranged along `p`.
pub open spec fn permuted<A>(s: Seq<A>, p: Seq<int>) -> Seq<A> {
    Seq::new(p.len(), |i: int| s[p[i]])
}

/// Loading `srcs` gives `scripts` and `warnings` when the sources are taken
/// in the order `q` of their names, and the entries of those that parse in
/// the order `p` of their categories and names (lowercased); the others
/// give one warning each, in the order of the sources.
pub open spec fn loaded_along(
    srcs: Seq<ScriptSourceView>,
    scripts: Seq<ScriptEntryView>,
    warnings: Seq<Seq<char>>,
    q: Seq<int>,
    p: Seq<int>,
) -> bool {
    let ordered = permuted(srcs, q);
    let entries = entries_of(ordered);
    &&& stable_order(q, Seq::new(srcs.len(), |i: int| source_key(srcs[i])))
    &&& warnings == warnings_of(ordered)
    &&& stable_order(p, Seq::new(entries.len(), |i: int| script_key(entries[i])))
    &&& scripts == permuted(entries, p)
}

/// The result of loading `srcs`: the sources are taken in the order of
/// their names; those that parse give the entries, stably sorted by
/// category and then name (lowercased); the others give one warning each,
/// in the order of the sources.
pub open spec fn load_result(
    srcs: Seq<ScriptSourceView>,
    scripts: Seq<ScriptEntryView>,
    warnings: Seq<Seq<char>>,
) -> bool {
    exists|q: Seq<int>, p: Seq<int>| #[trigger] loaded_along(srcs, scripts, warnings, q, p)
}

/// The code points of a text.
fn codes_of(s: &str) -> (v: Vec<u32>)
    ensures
        v@ == codes(s@),
{
    let chars = chars_of(s);
    let mut v: Vec<u32> = Vec::new();
    let mut i: usize = 0;
    while i < chars.len()
        invariant
            i <= chars.len(),
            chars@ == s@,
            v@ == codes(s@).take(i as int),
        decreases chars.len() - i,
    {
        v.push(chars[i] as u32);
        i = i + 1;
        assert(v@ =~= codes(s@).take(i as int));
    }
    assert(codes(s@).take(i as int) =~= codes(s@));
    v
}

/// The code points of the lowercase of a text (see `folded_codes`).
fn folded_codes_of(s: &str) -> (v: Vec<u32>)
    ensures
        v@ == folded_codes(s@),
{
    let chars = chars_of(s);
    let mut ascii = true;
    let mut i: usize = 0;
    while i < chars.len()
        invariant
            i <= chars.len(),
            chars@ == s@,
            ascii <==> forall|k: int| 0 <= k < i ==> (s@[k] as u32) < 128,
        decreases chars.len() - i,
    {
        if (chars[i] as u32) >= 128 {
            ascii = false;
        }
        i = i + 1;
    }
    if !ascii {
        let lower = to_lowercase(s);
        return codes_of(lower.as_str());
    }
    let mut v: Vec<u32> = Vec::new();
    let mut j: usize = 0;
    while j < chars.len()
        invariant
            j <= chars.len(),
            chars@ == s@,
            is_ascii_text(s@),
            v@ == folded_codes(s@).take(j as int),
        decreases chars.len() - j,
    {
        let c = chars[j] as u32;
        let l = if 65 <= c && c <= 90 {
            c + 32
        } else {
            c
        };
        v.push(l);
        j = j + 1;
        assert(v@ =~= folded_codes(s@).take(j as int));
    }
    assert(folded_codes(s@).take(j as int) =~= folded_codes(s@));
    v
}

/// The bytes of a name, widened.
fn byte_codes_of(b: &Vec<u8>) -> (v: Vec<u32>)
    ensures
        v@ == byte_codes(b@),
{
    let mut v: Vec<u32> = Vec::new();
    let mut i: usize = 0;
    while i < b.len()
        invariant
            i <= b.len(),
            v@ == byte_codes(b@).take(i as int),
        decreases b.len() - i,
    {
        v.push(b[i] as u32);
        i = i + 1;
        assert(v@ =~= byte_codes(b@).take(i as int));
    }
    assert(byte_codes(b@).take(i as int) =~= byte_codes(b@));
    v
}

/// Builds the catalogue from the regular files of the scripts directory:
/// the sorted list of scripts, and a warning for each file skipped.
pub fn load_scripts(sources: Vec<ScriptSource>) -> (r: (Vec<ScriptEntry>, Vec<String>))
    ensures
        load_result(source_views(sources@), entry_views(r.0@), string_views(r.1@)),
{
    let ghost srcs = source_views(sources@);
    let mut name_keys: Vec<SortKey> = Vec::new();
    let mut i: usize = 0;
    while i < sources.len()
        invariant
            i <= sources.len(),
            srcs == source_views(sources@),
            name_keys.len() == i,
            forall|j: int| 0 <= j < i ==> #[trigger] name_keys@[j]@ == source_key(srcs[j]),
        decreases sources.len() - i,
    {
        name_keys.push(SortKey { major: byte_codes_of(&sources[i].name_bytes), minor: Vec::new() });
        i = i + 1;
    }
    let ghost src_items = sources@;
    let ordered = stable_sort_by_keys(sources, &name_keys);
    let ghost q = choose|q: Seq<int>|
        stable_order(q, key_views(name_keys@)) && crate::order::arranged(
            ordered@,
            src_items,
            q,
        );
    assert(key_views(name_keys@) =~= Seq::new(srcs.len(), |i: int| source_key(srcs[i])));
    let ghost ord = permuted(srcs, q);
    assert(source_views(ordered@) =~= ord);

    let mut entries: Vec<ScriptEntry> = Vec::new();
    let mut warnings: Vec<String> = Vec::new();
    for s in it: ordered.into_iter()
        invariant
            it.seq() == ordered@,
            source_views(it.seq()) == ord,
            entry_views(entries@) == entries_of(ord.take(it.index() as int)),
            string_views(warnings@) == warnings_of(ord.take(it.index() as int)),
    {
        let ghost k = it.index() as int;
        assert(s@ == ord[k]);
        assert(ord.take(k + 1).drop_last() =~= ord.take(k));
        let ScriptSource { path, file_name, name_bytes: _, content } = s;
        match content {
            Ok(text) => match parse_script_metadata(text.as_str(), file_name.as_str(), path) {
                Ok(e) => {
                    entries.push(e);
                    assert(entry_views(entries@) =~= entries_of(ord.take(k + 1)));
                },
                Err(m) => {
                    let mut w = String::from_str("Skipped — ");
                    w.append(m.as_str());
                    warnings.push(w);
                    assert(string_views(warnings@) =~= warnings_of(ord.take(k + 1)));
                },
            },
            Err(m) => {
                let mut w = String::from_str("Skipped — ");
                w.append(m.as_str());
                warnings.push(w);
                assert(string_views(warnings@) =~= warnings_of(ord.take(k + 1)));
            },
        }
    }
    assert(ord.take(ord.len() as int) =~= ord);
    let ghost ents = entries_of(ord);

    let mut script_keys: Vec<SortKey> = Vec::new();
    let mut j: usize = 0;
    while j < entries.len()
        invariant
            j <= entries.len(),
            entry_views(entries@) == ents,
            script_keys.len() == j,
            forall|m: int| 0 <= m < j ==> #[trigger] script_keys@[m]@ == script_key(ents[m]),
        decreases entries.len() - j,
    {
        script_keys.push(
            SortKey {
                major: folded_codes_of(entries[j].category.as_str()),
                minor: folded_codes_of(entries[j].name.as_str()),
            },
        );
        j = j + 1;
    }
    let ghost entry_items = entries@;
    let scripts = stable_sort_by_keys(entries, &script_keys);
    let ghost p = choose|p: Seq<int>|
        stable_order(p, key_views(script_keys@)) && crate::order::arranged(
            scripts@,
            entry_items,
            p,
        );
    assert(key_views(script_keys@) =~= Seq::new(ents.len(), |i: int| script_key(ents[i])));
    assert(entry_views(scripts@) =~= permuted(ents, p));
    assert(loaded_along(srcs, entry_views(scripts@), string_views(warnings@), q, p));
    (scripts, warnings)
}

/// Each source gives either an entry or a warning.
pub proof fn lemma_entries_and_warnings(srcs: Seq<ScriptSourceView>)
    ensures
        entries_of(srcs).len() + warnings_of(srcs).len() == srcs.len(),
    decreases srcs.len(),
{
    if srcs.len() > 0 {
        lemma_entries_and_warnings(srcs.drop_last());
    }
}

/// Loading accounts for every file: each one becomes a script or a
/// warning.
pub proof fn law_every_file_accounted(
    srcs: Seq<ScriptSourceView>,
    scripts: Seq<ScriptEntryView>,
    warnings: Seq<Seq<char>>,
)
    requires
        load_result(srcs, scripts, warnings),
    ensures
        scripts.len() + warnings.len() == srcs.len(),
{
    let (q, p) = choose|q: Seq<int>, p: Seq<int>| #[trigger]
        loaded_along(srcs, scripts, warnings, q, p);
    lemma_entries_and_warnings(permuted(srcs, q));
}

/// The loaded scripts are sorted by category, then by name, ignoring case.
pub proof fn law_scripts_sorted(
    srcs: Seq<ScriptSourceView>,
    scripts: Seq<ScriptEntryView>,
    warnings: Seq<Seq<char>>,
)
    requires
        load_result(srcs, scripts, warnings),
    ensures
        forall|i: int, j: int|
            0 <= i < j < scripts.len() ==> key_le(
                #[trigger] script_key(scripts[i]),
                #[trigger] script_key(scripts[j]),
            ),
{
    let (q, p) = choose|q: Seq<int>, p: Seq<int>| #[trigger]
        loaded_along(srcs, scripts, warnings, q, p);
    let entries = entries_of(permuted(srcs, q));
    let keys = Seq::new(entries.len(), |i: int| script_key(entries[i]));
    assert forall|i: int, j: int| 0 <= i < j < scripts.len() implies key_le(
        #[trigger] script_key(scripts[i]),
        #[trigger] script_key(scripts[j]),
    ) by {
        assert(key_le(keys[p[i]], keys[p[j]]));
    }
}

/// What loading gives is determined by the files: the scripts and the
/// warnings are the same whenever the same files are read.
pub proof fn law_load_deterministic(
    srcs: Seq<ScriptSourceView>,
    scripts1: Seq<ScriptEntryView>,
    warnings1: Seq<Seq<char>>,
    scripts2: Seq<ScriptEntryView>,
    warnings2: Seq<Seq<char>>,
)
    requires
        load_result(srcs, scripts1, warnings1),
        load_result(srcs, scripts2, warnings2),
    ensures
        scripts1 == scripts2,
        warnings1 == warnings2,
{
    let (q1, p1) = choose|q: Seq<int>, p: Seq<int>| #[trigger]
        loaded_along(srcs, scripts1, warnings1, q, p);
    let (q2, p2) = choose|q: Seq<int>, p: Seq<int>| #[trigger]
        loaded_along(srcs, scripts2, warnings2, q, p);
    law_stable_order_unique(q1, q2, Seq::new(srcs.len(), |i: int| source_key(srcs[i])));
    let entries = entries_of(permuted(srcs, q1));
    law_stable_order_unique(p1, p2, Seq::new(entries.len(), |i: int| script_key(entries[i])));
}

/// `r` lists each of the positions `0..n` once.
pub open spec fn is_rearrangement(r: Seq<int>, n: nat) -> bool {
    &&& r.len() == n
    &&& forall|i: int| 0 <= i < n ==> 0 <= #[trigger] r[i] < n
    &&& forall|i: int, j: int| 0 <= i < j < n ==> #[trigger] r[i] != #[trigger] r[j]
}

/// No two sources have the same file name, as in one directory.
pub open spec fn distinct_names(srcs: Seq<ScriptSourceView>) -> bool {
    forall|i: int, j: int|
        0 <= i < j < srcs.len() ==> #[trigger] srcs[i].name_bytes != #[trigger] srcs[j].name_bytes
}

/// Different names have different keys.
proof fn lemma_byte_codes_injective(a: Seq<u8>, b: Seq<u8>)
    requires
        byte_codes(a) == byte_codes(b),
    ensures
        a == b,
{
    assert(a.len() == byte_codes(a).len());
    assert(b.len() == byte_codes(b).len());
    assert forall|i: int| 0 <= i < a.len() implies a[i] == b[i] by {
        assert(byte_codes(a)[i] == byte_codes(b)[i]);
        assert(byte_codes(a)[i] == a[i] as u32);
        assert(byte_codes(b)[i] == b[i] as u32);
    }
    assert(a =~= b);
}

/// The order in which the directory lists its files does not matter:
/// loading a rearrangement of the same files gives the same scripts and
/// the same warnings.
pub proof fn law_listing_order_irrelevant(
    srcs: Seq<ScriptSourceView>,
    r: Seq<int>,
    scripts1: Seq<ScriptEntryView>,
    warnings1: Seq<Seq<char>>,
    scripts2: Seq<ScriptEntryView>,
    warnings2: Seq<Seq<char>>,
)
    requires
        distinct_names(srcs),
        is_rearrangement(r, srcs.len()),
        load_result(srcs, scripts1, warnings1),
        load_result(permuted(srcs, r), scripts2, warnings2),
    ensures
        scripts1 == scripts2,
        warnings1 == warnings2,
{
    let n = srcs.len();
    let srcs2 = permuted(srcs, r);
    let (q1, p1) = choose|q: Seq<int>, p: Seq<int>| #[trigger]
        loaded_along(srcs, scripts1, warnings1, q, p);
    let (q2, p2) = choose|q: Seq<int>, p: Seq<int>| #[trigger]
        loaded_along(srcs2, scripts2, warnings2, q, p);
    let keys = Seq::new(n, |i: int| source_key(srcs[i]));
    let keys2 = Seq::new(srcs2.len(), |i: int| source_key(srcs2[i]));
    let c = Seq::new(n, |i: int| r[q2[i]]);
    assert forall|i: int| 0 <= i < n implies 0 <= #[trigger] c[i] < n by {
        assert(0 <= q2[i] < n);
    }
    assert forall|i: int, j: int| 0 <= i < j < n implies #[trigger] c[i] != #[trigger] c[j] by {
        assert(q2[i] != q2[j]);
        if q2[i] < q2[j] {
            assert(r[q2[i]] != r[q2[j]]);
        } else {
            assert(r[q2[j]] != r[q2[i]]);
        }
    }
    assert forall|i: int, j: int| 0 <= i < j < n implies key_le(
        keys[#[trigger] c[i]],
        keys[#[trigger] c[j]],
    ) by {
        assert(key_le(keys2[q2[i]], keys2[q2[j]]));
        assert(keys2[q2[i]] == keys[c[i]]);
        assert(keys2[q2[j]] == keys[c[j]]);
    }
    assert forall|i: int, j: int|
        0 <= i < j < n && keys[#[trigger] c[i]] == keys[#[trigger] c[j]] implies c[i] < c[j] by {
        lemma_byte_codes_injective(srcs[c[i]].name_bytes, srcs[c[j]].name_bytes);
        if c[i] < c[j] {
            assert(srcs[c[i]].name_bytes != srcs[c[j]].name_bytes);
        } else {
            assert(c[j] != c[i]);
            assert(srcs[c[j]].name_bytes != srcs[c[i]].name_bytes);
        }
    }
    assert(stable_order(c, keys));
    law_stable_order_unique(c, q1, keys);
    assert(permuted(srcs2, q2) =~= permuted(srcs, q1));
    let entries = entries_of(permuted(srcs, q1));
    law_stable_order_unique(p1, p2, Seq::new(entries.len(), |i: int| script_key(entries[i])));
}

/// For each entry of `entries_of(srcs)`, the position of the source that
/// gave it.
pub open spec fn entry_origins(srcs: Seq<ScriptSourceView>) -> Seq<int>
    decreases srcs.len(),
{
    if srcs.len() == 0 {
        Seq::empty()
    } else {
        match source_outcome(srcs.last()) {
            Ok(_) => entry_origins(srcs.drop_last()).push(srcs.len() - 1),
            Err(_) => entry_origins(srcs.drop_last()),
        }
    }
}

/// Each entry comes from its source, and the sources come in order.
proof fn lemma_entry_origins(srcs: Seq<ScriptSourceView>)
    ensures
        entry_origins(srcs).len() == entries_of(srcs).len(),
        forall|m: int|
            0 <= m < entry_origins(srcs).len() ==> 0 <= #[trigger] entry_origins(srcs)[m]
                < srcs.len() && source_outcome(srcs[entry_origins(srcs)[m]]) == Ok::<
                ScriptEntryView,
                Seq<char>,
            >(entries_of(srcs)[m]),
        forall|m1: int, m2: int|
            0 <= m1 < m2 < entry_origins(srcs).len() ==> #[trigger] entry_origins(srcs)[m1]
                < #[trigger] entry_origins(srcs)[m2],
    decreases srcs.len(),
{
    if srcs.len() > 0 {
        let d = srcs.drop_last();
        lemma_entry_origins(d);
        assert forall|m: int| 0 <= m < entry_origins(d).len() implies #[trigger] srcs[entry_origins(
            d,
        )[m]] == d[entry_origins(d)[m]] by {}
    }
}

/// Scripts with the same category and name (ignoring case) come in the
/// order of their file names: the earlier one comes from the file whose
/// name is smaller byte by byte.
pub proof fn law_ties_by_file_name(
    srcs: Seq<ScriptSourceView>,
    scripts: Seq<ScriptEntryView>,
    warnings: Seq<Seq<char>>,
    i: int,
    j: int,
)
    requires
        distinct_names(srcs),
        load_result(srcs, scripts, warnings),
        0 <= i < j < scripts.len(),
        script_key(scripts[i]) == script_key(scripts[j]),
    ensures
        exists|a: int, b: int|
            0 <= a < srcs.len() && 0 <= b < srcs.len() && #[trigger] source_outcome(srcs[a])
                == Ok::<ScriptEntryView, Seq<char>>(scripts[i]) && #[trigger] source_outcome(srcs[b])
                == Ok::<ScriptEntryView, Seq<char>>(scripts[j]) && lex_lt(
                byte_codes(srcs[a].name_bytes),
                byte_codes(srcs[b].name_bytes),
            ),
{
    let (q, p) = choose|q: Seq<int>, p: Seq<int>| #[trigger]
        loaded_along(srcs, scripts, warnings, q, p);
    let ordered = permuted(srcs, q);
    let entries = entries_of(ordered);
    let ekeys = Seq::new(entries.len(), |k: int| script_key(entries[k]));
    let keys = Seq::new(srcs.len(), |k: int| source_key(srcs[k]));
    assert(ekeys[p[i]] == ekeys[p[j]]);
    assert(p[i] < p[j]);
    lemma_entry_origins(ordered);
    let org = entry_origins(ordered);
    let x = org[p[i]];
    let y = org[p[j]];
    assert(x < y);
    let a = q[x];
    let b = q[y];
    assert(ordered[x] == srcs[a]);
    assert(ordered[y] == srcs[b]);
    assert(a != b);
    assert(key_le(keys[q[x]], keys[q[y]]));
    if keys[a] == keys[b] {
        lemma_byte_codes_injective(srcs[a].name_bytes, srcs[b].name_bytes);
        if a < b {
            assert(srcs[a].name_bytes != srcs[b].name_bytes);
        } else {
            assert(srcs[b].name_bytes != srcs[a].name_bytes);
        }
    }
    lemma_key_order(keys[a], keys[b], keys[b]);
    assert(!lex_lt(Seq::<u32>::empty(), Seq::<u32>::empty()));
    assert(lex_lt(keys[a].0, keys[b].0));
    assert(source_outcome(srcs[a]) == Ok::<ScriptEntryView, Seq<char>>(scripts[i]));
    assert(source_outcome(srcs[b]) == Ok::<ScriptEntryView, Seq<char>>(scripts[j]));
}

/// Sorting ignores case: on ASCII text every letter `A`..`Z` (codes 65 to
/// 90), wherever it stands, counts as its lowercase letter (32 higher), and
/// every other character counts as itself.
pub proof fn law_keys_lowercase_ascii(s: Seq<char>)
    requires
        is_ascii_text(s),
    ensures
        folded_codes(s).len() == s.len(),
        forall|i: int|
            0 <= i < s.len() && 65 <= (s[i] as u32) <= 90 ==> #[trigger] folded_codes(s)[i] == (s[i]
                as u32) + 32,
        forall|i: int|
            0 <= i < s.len() && !(65 <= (s[i] as u32) <= 90) ==> #[trigger] folded_codes(s)[i] == (
            s[i] as u32),
{
}

/// Two ASCII texts that differ only in the case of their letters sort
/// alike: their keys are equal.
pub proof fn law_case_blind_keys(s: Seq<char>, t: Seq<char>)
    requires
        is_ascii_text(s),
        is_ascii_text(t),
        s.len() == t.len(),
        forall|i: int|
            0 <= i < s.len() ==> (s[i] == t[i] || (65 <= (s[i] as u32) <= 90 && (t[i] as u32) == (
            s[i] as u32) + 32) || (65 <= (t[i] as u32) <= 90 && (s[i] as u32) == (t[i] as u32)
                + 32)),
    ensures
        folded_codes(s) == folded_codes(t),
{
    assert(folded_codes(s) =~= folded_codes(t));
}

} // verus!
