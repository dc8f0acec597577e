//! The decisions of the command-line tool: which benchmarks a selection
//! names, which of them ran into trouble, which files hold results, and the
//! lines it prints.
use vstd::prelude::*;

use crate::model::{
    debug_quoted, debug_text, rfc3339_text, status_text, BenchmarkGroup, BenchmarkStatus, Timestamp,
};
use crate::sorted::{has_key, texts_sorted, SortedMap};
use crate::store::IngestReport;
use crate::text::{
    chars_of, decimal, owned, push_char, push_decimal, push_str, signed_decimal,
    string_of, text_eq, trim, trim_chars,
};

verus! {

/// The texts of a sequence of strings.
pub open spec fn views(s: Seq<String>) -> Seq<Seq<char>> {
    s.map_values(|x: String| x@)
}

/// A selection separates names by `,` or ` `.
pub open spec fn is_separator(c: char) -> bool {
    c == ',' || c == ' '
}

/// The pieces of `s` between separators (`str::split` on `,` and ` `).
pub open spec fn pieces(s: Seq<char>) -> Seq<Seq<char>>
    decreases s.len(),
{
    if s.len() == 0 {
        seq![Seq::empty()]
    } else {
        let p = pieces(s.drop_last());
        if is_separator(s.last()) {
            p.push(Seq::empty())
        } else {
            p.update(p.len() - 1, p.last().push(s.last()))
        }
    }
}

/// `t` is a name of the selection `s`: a piece, trimmed, that is not empty.
pub open spec fn selects(s: Seq<char>, t: Seq<char>) -> bool {
    t.len() > 0 && exists|i: int| 0 <= i < pieces(s).len() && trim(#[trigger] pieces(s)[i]) == t
}

/// The names in a sequence of pieces.
pub open spec fn names_in(done: Seq<Seq<char>>, t: Seq<char>) -> bool {
    t.len() > 0 && exists|j: int| 0 <= j < done.len() && trim(#[trigger] done[j]) == t
}

fn add_piece(set: &mut SortedMap<String, ()>, piece: &Vec<char>)
    ensures
        forall|t: Seq<char>|
            #[trigger] has_key(final(set)@, t) <==> has_key(old(set)@, t) || (t.len() > 0 && t
                == trim(piece@)),
{
    let trimmed = trim_chars(piece);
    if trimmed.len() > 0 {
        set.insert(string_of(&trimmed), ());
    }
}

/// The names of a selection, without repetition, in order.
pub fn parse_selection(selection: &str) -> (r: Vec<String>)
    ensures
        texts_sorted(views(r@)),
        forall|t: Seq<char>| views(r@).contains(t) <==> selects(selection@, t),
{
    let cs = chars_of(selection);
    let mut set: SortedMap<String, ()> = SortedMap::new();
    let mut cur: Vec<char> = Vec::new();
    let ghost mut done: Seq<Seq<char>> = Seq::empty();
    let n: usize = cs.len();
    assert(cs@.take(0) == Seq::<char>::empty());
    for i in 0..n
        invariant
            n == cs@.len(),
            pieces(cs@.take(i as int)) == done.push(cur@),
            forall|t: Seq<char>| #[trigger] has_key(set@, t) <==> names_in(done, t),
    {
        let c = cs[i];
        assert(cs@.take(i + 1).drop_last() == cs@.take(i as int));
        assert(cs@.take(i + 1).last() == c);
        if c == ',' || c == ' ' {
            add_piece(&mut set, &cur);
            proof {
                let old_done = done;
                done = done.push(cur@);
                assert forall|t: Seq<char>| #[trigger] names_in(done, t) implies has_key(set@, t) by {
                    let j = choose|j: int| 0 <= j < done.len() && trim(#[trigger] done[j]) == t;
                    if j < old_done.len() {
                        assert(old_done[j] == done[j]);
                        assert(names_in(old_done, t));
                    }
                }
                assert forall|t: Seq<char>| #[trigger] has_key(set@, t) implies names_in(done, t) by {
                    if names_in(old_done, t) {
                        let j = choose|j: int|
                            0 <= j < old_done.len() && trim(#[trigger] old_done[j]) == t;
                        assert(done[j] == old_done[j]);
                    } else {
                        assert(done[old_done.len() as int] == cur@);
                    }
                }
            }
            cur = Vec::new();
            assert(pieces(cs@.take(i + 1)) == done.push(cur@));
        } else {
            cur.push(c);
            assert(pieces(cs@.take(i + 1)) == done.push(cur@));
        }
    }
    add_piece(&mut set, &cur);
    let ghost all = done.push(cur@);
    assert(cs@.take(n as int) == cs@);
    proof {
        assert forall|t: Seq<char>| #[trigger] has_key(set@, t) <==> selects(selection@, t) by {
            if names_in(done, t) {
                let j = choose|j: int| 0 <= j < done.len() && trim(#[trigger] done[j]) == t;
                assert(all[j] == done[j]);
            }
            if t.len() > 0 && t == trim(cur@) {
                assert(all[done.len() as int] == cur@);
            }
            if selects(selection@, t) {
                let j = choose|j: int| 0 <= j < all.len() && trim(#[trigger] all[j]) == t;
                if j < done.len() {
                    assert(done[j] == all[j]);
                    assert(names_in(done, t));
                }
            }
        }
    }
    let keys = set.keys();
    let entries = set.entries();
    proof {
        assert forall|i: int, j: int|
            #![trigger views(keys@)[i], views(keys@)[j]]
            0 <= i < j < views(keys@).len() implies crate::text::lex_lt(
            views(keys@)[i],
            views(keys@)[j],
        ) by {
            assert(keys@[i] == entries@[i].0);
            assert(keys@[j] == entries@[j].0);
            assert(crate::text::lex_lt(entries@[i].0@, entries@[j].0@));
        }
        assert forall|t: Seq<char>| views(keys@).contains(t) <==> selects(selection@, t) by {
            if views(keys@).contains(t) {
                let i = choose|i: int| 0 <= i < views(keys@).len() && views(keys@)[i] == t;
                assert(keys@[i] == entries@[i].0);
                assert(has_key(set@, t));
            }
            if selects(selection@, t) {
                assert(has_key(set@, t));
                let i = choose|i: int| 0 <= i < set@.len() && (#[trigger] set@[i]).0@ == t;
                assert(keys@[i] == set@[i].0);
                assert(views(keys@)[i] == t);
            }
        }
    }
    keys
}

/// A selection is determined by the names it holds: two selections that
/// name the same names (in any order, with any repetition, separators and
/// surrounding whitespace) parse to the same list.
pub proof fn lemma_selection_depends_on_names_only(
    s1: Seq<char>,
    s2: Seq<char>,
    r1: Seq<Seq<char>>,
    r2: Seq<Seq<char>>,
)
    requires
        forall|t: Seq<char>| selects(s1, t) <==> selects(s2, t),
        texts_sorted(r1),
        texts_sorted(r2),
        forall|t: Seq<char>| r1.contains(t) <==> selects(s1, t),
        forall|t: Seq<char>| r2.contains(t) <==> selects(s2, t),
    ensures
        r1 == r2,
{
    crate::sorted::lemma_sorted_texts_unique(r1, r2);
}

/// Whether `t` is one of the texts of `v`.
pub fn contains_text(v: &Vec<String>, t: &str) -> (r: bool)
    ensures
        r == views(v@).contains(t@),
{
    for i in 0..v.len()
        invariant
            forall|j: int| 0 <= j < i ==> v@[j]@ != t@,
    {
        if text_eq(v[i].as_str(), t) {
            assert(views(v@)[i as int] == t@);
            return true;
        }
    }
    assert(!views(v@).contains(t@)) by {
        if views(v@).contains(t@) {
            let j = choose|j: int| 0 <= j < views(v@).len() && views(v@)[j] == t@;
            assert(v@[j]@ == t@);
        }
    }
    false
}

/// The `[package.metadata.benchy]` table of a benchmark package.
#[derive(Debug, Clone, PartialEq, Eq)]
pub struct BenchyMetadata {
    pub id: String,
    pub default: bool,
}

/// Package `p` is run for selection `s`: the selection names `all`, or names
/// `default` and the package is a default one, or names the package.
pub open spec fn package_selected(s: Seq<char>, p: BenchyMetadata) -> bool {
    ||| selects(s, "all"@)
    ||| (selects(s, "default"@) && p.default)
    ||| selects(s, p.id@)
}

/// Name `t` of selection `s` matches no package and is neither `all` nor
/// `default`.
pub open spec fn unknown_name(s: Seq<char>, packages: Seq<BenchyMetadata>, t: Seq<char>) -> bool {
    &&& selects(s, t)
    &&& t != "all"@
    &&& t != "default"@
    &&& forall|i: int| 0 <= i < packages.len() ==> (#[trigger] packages[i]).id@ != t
}

/// Why a selection cannot be run.
#[derive(Debug, PartialEq)]
pub enum SelectionError {
    /// Names that match no package, in order.
    Unknown { names: Vec<String> },
    /// The selection matched no package.
    NoMatch { selection: String },
}

/// Chooses the packages to run: their indices, in package order. Names that
/// match no package are refused first; then a selection that matches no
/// package.
pub fn select_benchmarks(packages: &Vec<BenchyMetadata>, selection: &str) -> (r: Result<
    Vec<usize>,
    SelectionError,
>)
    ensures
        r matches Err(SelectionError::Unknown { .. }) <==> exists|t: Seq<char>|
            unknown_name(selection@, packages@, t),
        match r {
            Ok(v) => {
                &&& v@.len() > 0
                &&& forall|a: int, b: int| 0 <= a < b < v@.len() ==> v@[a] < v@[b]
                &&& forall|k: int| 0 <= k < v@.len() ==> v@[k] < packages@.len()
                &&& forall|i: int|
                    0 <= i < packages@.len() ==> (v@.contains(i as usize) <==> package_selected(
                        selection@,
                        #[trigger] packages@[i],
                    ))
            },
            Err(SelectionError::Unknown { names }) => {
                &&& texts_sorted(views(names@))
                &&& forall|t: Seq<char>|
                    views(names@).contains(t) <==> unknown_name(selection@, packages@, t)
            },
            Err(SelectionError::NoMatch { selection: s }) => {
                &&& s@ == selection@
                &&& forall|i: int|
                    0 <= i < packages@.len() ==> !package_selected(
                        selection@,
                        #[trigger] packages@[i],
                    )
            },
        },
{
    let requested = parse_selection(selection);
    let run_all = contains_text(&requested, "all");
    let run_default = contains_text(&requested, "default");
    let np: usize = packages.len();
    let mut selected: Vec<usize> = Vec::new();
    for i in 0..np
        invariant
            np == packages@.len(),
            run_all == selects(selection@, "all"@),
            run_default == selects(selection@, "default"@),
            forall|t: Seq<char>| views(requested@).contains(t) <==> selects(selection@, t),
            forall|a: int, b: int| 0 <= a < b < selected@.len() ==> selected@[a] < selected@[b],
            forall|k: int| 0 <= k < selected@.len() ==> selected@[k] < i,
            forall|j: int|
                0 <= j < i ==> (selected@.contains(j as usize) <==> package_selected(
                    selection@,
                    #[trigger] packages@[j],
                )),
    {
        let p = &packages[i];
        let ghost before = selected@;
        let pick = run_all || (run_default && p.default) || contains_text(&requested, p.id.as_str());
        assert(pick == package_selected(selection@, packages@[i as int]));
        if pick {
            selected.push(i);
        }
        proof {
            assert forall|j: int|
                0 <= j < i + 1 implies (selected@.contains(j as usize) <==> package_selected(
                selection@,
                #[trigger] packages@[j],
            )) by {
                if selected@.contains(j as usize) {
                    let k = choose|k: int| 0 <= k < selected@.len() && selected@[k] == j as usize;
                    if k < before.len() {
                        assert(before[k] == j as usize);
                        assert(before.contains(j as usize));
                    } else {
                        assert(j == i);
                    }
                }
                if j < i && before.contains(j as usize) {
                    let k = choose|k: int| 0 <= k < before.len() && before[k] == j as usize;
                    assert(selected@[k] == j as usize);
                }
                if j == i && pick {
                    assert(selected@[before.len() as int] == i);
                }
                if j == i && !pick && selected@.contains(j as usize) {
                    let k = choose|k: int| 0 <= k < selected@.len() && selected@[k] == j as usize;
                    assert(before[k] < i);
                }
            }
        }
    }
    // names that match no package, in the order of the selection's names
    let mut unknown: Vec<String> = Vec::new();
    // `pos[a]`: where `unknown[a]` stands among the requested names
    let ghost mut pos: Seq<int> = Seq::empty();
    let nr: usize = requested.len();
    for k in 0..nr
        invariant
            nr == requested@.len(),
            np == packages@.len(),
            texts_sorted(views(requested@)),
            forall|t: Seq<char>| views(requested@).contains(t) <==> selects(selection@, t),
            pos.len() == unknown@.len(),
            forall|a: int, b: int| 0 <= a < b < pos.len() ==> pos[a] < pos[b],
            forall|a: int|
                0 <= a < pos.len() ==> 0 <= #[trigger] pos[a] < k && views(unknown@)[a]
                    == views(requested@)[pos[a]],
            forall|t: Seq<char>|
                views(unknown@).contains(t) <==> (unknown_name(selection@, packages@, t)
                    && views(requested@).take(k as int).contains(t)),
    {
        let t = &requested[k];
        let mut known = text_eq(t.as_str(), "all") || text_eq(t.as_str(), "default");
        let mut j: usize = 0;
        while !known && j < np
            invariant
                np == packages@.len(),
                j <= np,
                !known ==> (t@ != "all"@ && t@ != "default"@),
                !known ==> forall|m: int| 0 <= m < j ==> (#[trigger] packages@[m]).id@ != t@,
                known ==> (t@ == "all"@ || t@ == "default"@ || exists|m: int|
                    0 <= m < np && (#[trigger] packages@[m]).id@ == t@),
            decreases np - j,
        {
            if text_eq(packages[j].id.as_str(), t.as_str()) {
                known = true;
            }
            j = j + 1;
        }
        assert(views(requested@)[k as int] == t@);
        assert(views(requested@).contains(t@));
        assert(known <==> !unknown_name(selection@, packages@, t@)) by {
            if known && !(t@ == "all"@ || t@ == "default"@) {
                let q = choose|q: int| 0 <= q < np && (#[trigger] packages@[q]).id@ == t@;
            }
        }
        let ghost before = unknown@;
        let ghost before_pos = pos;
        if !known {
            unknown.push(owned(t.as_str()));
            proof {
                pos = pos.push(k as int);
                assert(views(unknown@) == views(before).push(t@));
            }
        } else {
            assert(views(unknown@) == views(before));
        }
        proof {
            let tk = views(requested@).take(k as int);
            let tk1 = views(requested@).take(k + 1);
            assert(tk1 == tk.push(t@));
            assert forall|a: int| 0 <= a < pos.len() implies 0 <= #[trigger] pos[a] < k + 1
                && views(unknown@)[a] == views(requested@)[pos[a]] by {
                if a < before.len() {
                    assert(pos[a] == before_pos[a]);
                    assert(views(unknown@)[a] == views(before)[a]);
                }
            }
            assert forall|u: Seq<char>| #[trigger] views(unknown@).contains(u) implies (
            unknown_name(selection@, packages@, u) && tk1.contains(u)) by {
                let a = choose|a: int| 0 <= a < views(unknown@).len() && views(unknown@)[a] == u;
                if a < before.len() {
                    assert(views(before)[a] == u);
                    assert(views(before).contains(u));
                    let m = choose|m: int| 0 <= m < tk.len() && tk[m] == u;
                    assert(tk1[m] == u);
                } else {
                    assert(u == t@);
                    assert(tk1[k as int] == u);
                }
            }
            assert forall|u: Seq<char>|
                unknown_name(selection@, packages@, u) && #[trigger] tk1.contains(
                    u,
                ) implies views(unknown@).contains(u) by {
                let m = choose|m: int| 0 <= m < tk1.len() && tk1[m] == u;
                if m < k {
                    assert(tk[m] == u);
                    assert(views(before).contains(u));
                    let a = choose|a: int| 0 <= a < views(before).len() && views(before)[a] == u;
                    assert(views(unknown@)[a] == u);
                } else {
                    assert(u == t@);
                    assert(views(unknown@)[unknown@.len() - 1] == u);
                }
            }
        }
    }
    proof {
        assert(views(requested@).take(nr as int) == views(requested@));
        assert forall|a: int, b: int|
            #![trigger views(unknown@)[a], views(unknown@)[b]]
            0 <= a < b < unknown@.len() implies crate::text::lex_lt(
            views(unknown@)[a],
            views(unknown@)[b],
        ) by {
            assert(views(requested@)[pos[a]] == views(unknown@)[a]);
            assert(views(requested@)[pos[b]] == views(unknown@)[b]);
        }
        assert forall|t: Seq<char>|
            views(unknown@).contains(t) <==> unknown_name(selection@, packages@, t) by {
        }
    }
    if unknown.len() > 0 {
        assert(views(unknown@).contains(views(unknown@)[0]));
        return Err(SelectionError::Unknown { names: unknown });
    }
    if selected.len() == 0 {
        proof {
            assert forall|t: Seq<char>| !unknown_name(selection@, packages@, t) by {
                if unknown_name(selection@, packages@, t) {
                    assert(views(unknown@).contains(t));
                }
            }
        }
        return Err(SelectionError::NoMatch { selection: owned(selection) });
    }
    proof {
        assert forall|t: Seq<char>| !unknown_name(selection@, packages@, t) by {
            if unknown_name(selection@, packages@, t) {
                assert(views(unknown@).contains(t));
            }
        }
    }
    Ok(selected)
}

/// The texts of `names` joined by `sep`.
pub open spec fn join(names: Seq<Seq<char>>, sep: Seq<char>) -> Seq<char>
    decreases names.len(),
{
    if names.len() == 0 {
        Seq::empty()
    } else if names.len() == 1 {
        names[0]
    } else {
        join(names.drop_last(), sep) + sep + names.last()
    }
}

/// `format!("{:?}", names)`: `[` then each name as `{:?}` prints it,
/// separated by `, `, then `]`.
pub open spec fn debug_list(names: Seq<Seq<char>>) -> Seq<char> {
    "["@ + join(names.map_values(|t: Seq<char>| debug_text(t)), ", "@) + "]"@
}

/// Appends the texts of `names` (with `{:?}` quoting when `quoted`) joined by
/// `sep`.
fn push_joined(s: &mut String, names: &Vec<String>, sep: &str, quoted: bool)
    ensures
        final(s)@ == old(s)@ + join(
            if quoted {
                views(names@).map_values(|t: Seq<char>| debug_text(t))
            } else {
                views(names@)
            },
            sep@,
        ),
{
    let ghost items = if quoted {
        views(names@).map_values(|t: Seq<char>| debug_text(t))
    } else {
        views(names@)
    };
    let ghost start = s@;
    let n: usize = names.len();
    assert(items.take(0) == Seq::<Seq<char>>::empty());
    for i in 0..n
        invariant
            n == names@.len(),
            items.len() == n,
            items == (if quoted {
                views(names@).map_values(|t: Seq<char>| debug_text(t))
            } else {
                views(names@)
            }),
            s@ == start + join(items.take(i as int), sep@),
    {
        let ghost prev = s@;
        if i > 0 {
            push_str(s, sep);
        }
        if quoted {
            let q = debug_quoted(names[i].as_str());
            push_str(s, q.as_str());
        } else {
            push_str(s, names[i].as_str());
        }
        proof {
            let t = items.take(i + 1);
            assert(t.drop_last() == items.take(i as int));
            assert(t.last() == items[i as int]);
            if i > 0 {
                assert(s@ == prev + sep@ + items[i as int]);
                assert(join(t, sep@) == join(items.take(i as int), sep@) + sep@ + items[i as int]);
            } else {
                assert(t.len() == 1);
                assert(join(items.take(0), sep@) == Seq::<char>::empty());
                assert(s@ == prev + items[i as int]);
                assert(prev == start + Seq::<char>::empty());
            }
        }
    }
    assert(items.take(n as int) == items);
}

impl SelectionError {
    pub fn message(&self) -> (r: String)
        ensures
            match self {
                SelectionError::Unknown { names } => r@ == "unknown benchmarks: "@ + debug_list(
                    views(names@),
                ),
                SelectionError::NoMatch { selection } => r@ == "benchmark selection '"@
                    + selection@ + "' matched no packages"@,
            },
    {
        let mut s = String::new();
        match self {
            SelectionError::Unknown { names } => {
                push_str(&mut s, "unknown benchmarks: ");
                push_str(&mut s, "[");
                push_joined(&mut s, names, ", ", true);
                push_str(&mut s, "]");
            },
            SelectionError::NoMatch { selection } => {
                push_str(&mut s, "benchmark selection '");
                push_str(&mut s, selection.as_str());
                push_str(&mut s, "' matched no packages");
            },
        }
        s
    }
}

/// The file a benchmark writes its result to: `{id}.json`.
pub fn result_file_name(id: &str) -> (r: String)
    ensures
        r@ == id@ + ".json"@,
{
    let mut s = owned(id);
    push_str(&mut s, ".json");
    s
}

/// The benchmarks of a run that failed: they exited unsuccessfully, or
/// succeeded without writing their result file.
pub struct RunFailures {
    ids: SortedMap<String, ()>,
}

impl View for RunFailures {
    type V = Seq<(String, ())>;

    closed spec fn view(&self) -> Seq<(String, ())> {
        self.ids@
    }
}

impl RunFailures {
    pub fn new() -> (r: RunFailures)
        ensures
            r@.len() == 0,
    {
        RunFailures { ids: SortedMap::new() }
    }

    /// Records how benchmark `id` ended; it failed when it did not succeed or
    /// did not write its result.
    pub fn record(&mut self, id: &str, succeeded: bool, wrote_result: bool)
        ensures
            forall|t: Seq<char>|
                #[trigger] has_key(final(self)@, t) <==> has_key(old(self)@, t) || (t == id@ && (
                !succeeded || !wrote_result)),
    {
        if !succeeded || !wrote_result {
            self.ids.insert(owned(id), ());
        }
    }

    /// `Ok` when nothing failed; otherwise "benchmarks failed: " and the
    /// failed IDs in order, separated by ", ".
    pub fn finish(&self) -> (r: Result<(), String>)
        ensures
            r is Ok <==> self@.len() == 0,
            r matches Err(m) ==> m@ == "benchmarks failed: "@ + join(
                self@.map_values(|e: (String, ())| e.0@),
                ", "@,
            ),
    {
        if self.ids.is_empty() {
            Ok(())
        } else {
            let ids = self.ids.keys();
            let mut s = String::new();
            push_str(&mut s, "benchmarks failed: ");
            push_joined(&mut s, &ids, ", ", false);
            assert(views(ids@) == self@.map_values(|e: (String, ())| e.0@));
            Err(s)
        }
    }
}

/// A file name has the extension `json` (`Path::extension`): it ends in
/// `.json` and something precedes that dot.
pub open spec fn is_json_name(name: Seq<char>) -> bool {
    name.len() > 5 && name.skip(name.len() - 5) == ".json"@
}

pub fn is_result_file(name: &str) -> (r: bool)
    ensures
        r == is_json_name(name@),
{
    let cs = chars_of(name);
    let n: usize = cs.len();
    if n <= 5 {
        return false;
    }
    let ext = chars_of(".json");
    let mut tail: Vec<char> = Vec::new();
    let mut i: usize = n - 5;
    while i < n
        invariant
            n > 5,
            n - 5 <= i <= n,
            n == cs@.len(),
            tail@ == cs@.subrange(n - 5, i as int),
        decreases n - i,
    {
        tail.push(cs[i]);
        assert(cs@.subrange(n - 5, i + 1) == cs@.subrange(n - 5, i as int).push(cs@[i as int]));
        i = i + 1;
    }
    assert(cs@.skip(n - 5) == cs@.subrange(n - 5, n as int));
    crate::text::compare_chars(&tail, &ext) == crate::text::TextOrder::Equal
}

/// The result files among the file names of a directory: those with the
/// `json` extension, in order.
pub fn result_files(names: &Vec<String>) -> (r: Vec<String>)
    ensures
        texts_sorted(views(r@)),
        forall|t: Seq<char>|
            views(r@).contains(t) <==> (views(names@).contains(t) && is_json_name(t)),
{
    let mut set: SortedMap<String, ()> = SortedMap::new();
    let n: usize = names.len();
    for i in 0..n
        invariant
            n == names@.len(),
            forall|t: Seq<char>|
                #[trigger] has_key(set@, t) <==> (is_json_name(t) && views(names@).take(
                    i as int,
                ).contains(t)),
    {
        if is_result_file(names[i].as_str()) {
            set.insert(owned(names[i].as_str()), ());
        }
        proof {
            let ti = views(names@).take(i as int);
            let ti1 = views(names@).take(i + 1);
            assert(ti1 == ti.push(names@[i as int]@));
            assert forall|t: Seq<char>|
                #[trigger] has_key(set@, t) <==> (is_json_name(t) && ti1.contains(t)) by {
                if ti1.contains(t) {
                    let j = choose|j: int| 0 <= j < ti1.len() && ti1[j] == t;
                    if j < i {
                        assert(ti[j] == t);
                    }
                }
                if ti.contains(t) {
                    let j = choose|j: int| 0 <= j < ti.len() && ti[j] == t;
                    assert(ti1[j] == t);
                }
                if t == names@[i as int]@ {
                    assert(ti1[i as int] == t);
                }
            }
        }
    }
    assert(views(names@).take(n as int) == views(names@));
    let keys = set.keys();
    let entries = set.entries();
    proof {
        assert forall|i: int, j: int|
            #![trigger views(keys@)[i], views(keys@)[j]]
            0 <= i < j < views(keys@).len() implies crate::text::lex_lt(
            views(keys@)[i],
            views(keys@)[j],
        ) by {
            assert(keys@[i] == entries@[i].0);
            assert(keys@[j] == entries@[j].0);
            assert(crate::text::lex_lt(entries@[i].0@, entries@[j].0@));
        }
        assert forall|t: Seq<char>| #[trigger] views(keys@).contains(t) implies (views(
            names@,
        ).contains(t) && is_json_name(t)) by {
            let i = choose|i: int| 0 <= i < views(keys@).len() && views(keys@)[i] == t;
            assert(keys@[i] == entries@[i].0);
            assert(has_key(set@, t));
        }
        assert forall|t: Seq<char>|
            #[trigger] views(names@).contains(t) && is_json_name(t) implies views(
            keys@,
        ).contains(t) by {
            assert(has_key(set@, t));
            let i = choose|i: int| 0 <= i < set@.len() && (#[trigger] set@[i]).0@ == t;
            assert(keys@[i] == set@[i].0);
            assert(views(keys@)[i] == t);
        }
    }
    keys
}

/// "Stored {total} benchmark result(s) in {database} ({inserted} inserted,
/// {updated} updated)"
pub fn ingest_summary(report: IngestReport, database: &str) -> (r: String)
    requires
        report.inserted + report.updated <= usize::MAX,
    ensures
        r@ == "Stored "@ + decimal((report.inserted + report.updated) as nat)
            + " benchmark result(s) in "@ + database@ + " ("@ + decimal(report.inserted as nat)
            + " inserted, "@ + decimal(report.updated as nat) + " updated)"@,
{
    let mut s = String::new();
    push_str(&mut s, "Stored ");
    push_decimal(&mut s, report.total() as u64);
    push_str(&mut s, " benchmark result(s) in ");
    push_str(&mut s, database);
    push_str(&mut s, " (");
    push_decimal(&mut s, report.inserted as u64);
    push_str(&mut s, " inserted, ");
    push_decimal(&mut s, report.updated as u64);
    push_str(&mut s, " updated)");
    s
}

/// The line `list` prints for a benchmark: its ID, then ` (default)` for a
/// default one.
pub fn list_line(metadata: &BenchyMetadata) -> (r: String)
    ensures
        r@ == metadata.id@ + (if metadata.default {
            " (default)"@
        } else {
            Seq::empty()
        }),
{
    let mut s = owned(metadata.id.as_str());
    if metadata.default {
        push_str(&mut s, " (default)");
    }
    s
}

/// `inspect` needs a positive limit.
pub fn check_limit(limit: usize) -> (r: Result<(), String>)
    ensures
        r is Ok <==> limit > 0,
        r matches Err(m) ==> m@ == "--limit must be greater than zero"@,
{
    if limit == 0 {
        Err(owned("--limit must be greater than zero"))
    } else {
        Ok(())
    }
}

/// A stored run as `inspect` shows it.
#[derive(Debug, PartialEq)]
pub struct RunSummary {
    pub id: i64,
    /// The start time.
    pub date: Timestamp,
    pub status: BenchmarkStatus,
    pub group: BenchmarkGroup,
    pub branch: String,
    pub commit: String,
    pub measurement_count: u64,
}

/// `{:7}`: the text followed by spaces up to seven characters.
pub open spec fn pad7(t: Seq<char>) -> Seq<char> {
    if t.len() < 7 {
        t + Seq::new((7 - t.len()) as nat, |i: int| ' ')
    } else {
        t
    }
}

/// The first twelve characters of a commit hash.
pub open spec fn short_commit(c: Seq<char>) -> Seq<char> {
    if c.len() <= 12 {
        c
    } else {
        c.take(12)
    }
}

/// The line `inspect` prints for a run:
/// "#{id}  {date}  {status:7}  {repository}/{name}  {branch}  {commit, 12
/// characters}  {count} measurement(s)"
pub fn run_line(run: &RunSummary) -> (r: String)
    ensures
        r@ == "#"@ + signed_decimal(run.id as int) + "  "@ + rfc3339_text(run.date@.0, run.date@.1)
            + "  "@ + pad7(
            status_text(run.status),
        ) + "  "@ + run.group.repository@ + "/"@ + run.group.name@ + "  "@ + run.branch@
            + "  "@ + short_commit(run.commit@) + "  "@ + decimal(run.measurement_count as nat)
            + " measurement(s)"@,
{
    let mut s = String::new();
    push_str(&mut s, "#");
    let id = crate::text::signed_decimal_text(run.id);
    push_str(&mut s, id.as_str());
    push_str(&mut s, "  ");
    let date = run.date.to_rfc3339();
    push_str(&mut s, date.as_str());
    push_str(&mut s, "  ");
    let status = run.status.as_str();
    let status_chars = chars_of(status);
    let ghost before_status = s@;
    push_str(&mut s, status);
    let mut k: usize = status_chars.len();
    while k < 7
        invariant
            status_chars.len() <= k <= 7 || (k == status_chars.len() && k >= 7),
            status_chars@ == status_text(run.status),
            s@ == before_status + status_text(run.status) + Seq::new(
                (k - status_chars.len()) as nat,
                |i: int| ' ',
            ),
        decreases 7 - k,
    {
        let ghost prev = s@;
        push_char(&mut s, ' ');
        assert(Seq::new((k + 1 - status_chars.len()) as nat, |i: int| ' ') == Seq::new(
            (k - status_chars.len()) as nat,
            |i: int| ' ',
        ).push(' '));
        k = k + 1;
    }
    assert(s@ == before_status + pad7(status_text(run.status))) by {
        if status_chars.len() >= 7 {
            assert(Seq::new(0, |i: int| ' ') == Seq::<char>::empty());
            assert(status_text(run.status) + Seq::<char>::empty() == status_text(run.status));
        }
    }
    push_str(&mut s, "  ");
    push_str(&mut s, run.group.repository.as_str());
    push_str(&mut s, "/");
    push_str(&mut s, run.group.name.as_str());
    push_str(&mut s, "  ");
    push_str(&mut s, run.branch.as_str());
    push_str(&mut s, "  ");
    let commit = chars_of(run.commit.as_str());
    let mut short: Vec<char> = Vec::new();
    let mut i: usize = 0;
    while i < commit.len() && i < 12
        invariant
            i <= commit.len(),
            i <= 12,
            short@ == commit@.take(i as int),
        decreases 12 - i,
    {
        short.push(commit[i]);
        assert(commit@.take(i + 1) == commit@.take(i as int).push(commit@[i as int]));
        i = i + 1;
    }
    assert(short@ == short_commit(run.commit@)) by {
        if commit@.len() <= 12 {
            assert(commit@.take(commit@.len() as int) == commit@);
        }
    }
    let short_text = string_of(&short);
    push_str(&mut s, short_text.as_str());
    push_str(&mut s, "  ");
    push_decimal(&mut s, run.measurement_count);
    push_str(&mut s, " measurement(s)");
    s
}

/// "No benchmark runs stored in {database}"
pub fn no_runs_line(database: &str) -> (r: String)
    ensures
        r@ == "No benchmark runs stored in "@ + database@,
{
    let mut s = String::new();
    push_str(&mut s, "No benchmark runs stored in ");
    push_str(&mut s, database);
    s
}

} // verus!
