//! The tracked-file ledger: the set of destination paths written by the most
//! recent apply, kept as an ordered list of path strings.  The backing file is
//! newline-delimited text; reading tolerates blank and padded lines, writing
//! emits one path per line.  All I/O stays with the caller: `open` takes the
//! file's text (or `None` when the file is absent) and `store` returns the
//! text to be written.

use vstd::prelude::*;
use crate::text::{is_space, sep_idx, spec_trim, trim_front, trim_back,
    lemma_sep_idx_bounds, lemma_sep_idx_is, trim};

verus! {

/// Name of the ledger file inside the cache directory.
pub const NAME_FILECACHE: &'static str = "tracked_files";

/// The entries encoded by a ledger file's text: each line trimmed of
/// whitespace, blank lines dropped.
pub open spec fn spec_ledger_entries(s: Seq<char>) -> Seq<Seq<char>>
    decreases s.len(),
    via spec_ledger_entries_decreases
{
    let i = sep_idx(s, '\n');
    let line = spec_trim(s.take(i));
    let head: Seq<Seq<char>> = if line.len() == 0 {
        Seq::empty()
    } else {
        seq![line]
    };
    if i == s.len() {
        head
    } else {
        head + spec_ledger_entries(s.skip(i + 1))
    }
}

#[via_fn]
proof fn spec_ledger_entries_decreases(s: Seq<char>) {
    lemma_sep_idx_bounds(s, '\n');
}

/// The text that persists the given entries: each entry followed by a newline.
pub open spec fn spec_ledger_text(entries: Seq<Seq<char>>) -> Seq<char>
    decreases entries.len(),
{
    if entries.len() == 0 {
        Seq::empty()
    } else {
        spec_ledger_text(entries.drop_last()) + entries.last() + seq!['\n']
    }
}

/// An exact set difference between two path lists, in candidate order.
pub struct Diff<T> {
    pub added: Vec<T>,
    pub removed: Vec<T>,
}

/// The tracked-file ledger.
pub struct FileCache {
    files: Vec<String>,
}

impl View for FileCache {
    type V = Seq<Seq<char>>;

    closed spec fn view(&self) -> Seq<Seq<char>> {
        self.files.deep_view()
    }
}

fn contains_string(v: &Vec<String>, x: &String) -> (r: bool)
    ensures
        r == v.deep_view().contains(x@),
{
    let n = v.len();
    let mut i: usize = 0;
    while i < n
        invariant
            0 <= i <= n,
            n == v.len(),
            forall|k: int| 0 <= k < i ==> v.deep_view()[k] != x@,
        decreases n - i,
    {
        if v[i].eq(x) {
            assert(v.deep_view()[i as int] == x@);
            return true;
        }
        i = i + 1;
    }
    false
}

impl FileCache {
    /// Load the ledger from the backing file's text; an absent file yields an
    /// empty ledger.
    pub fn open(content: Option<&str>) -> (r: Self)
        ensures
            r@ == match content {
                Some(s) => spec_ledger_entries(s@),
                None => Seq::<Seq<char>>::empty(),
            },
    {
        match content {
            None => FileCache { files: Vec::new() },
            Some(s) => FileCache { files: parse(s) },
        }
    }

    /// The text that persists the current entries; the caller writes it to
    /// the backing file, replacing it wholesale.
    pub fn store(&self) -> (r: String)
        ensures
            r@ == spec_ledger_text(self@),
    {
        let mut out = String::new();
        let n = self.files.len();
        let mut i: usize = 0;
        while i < n
            invariant
                0 <= i <= n,
                n == self.files.len(),
                out@ == spec_ledger_text(self.files.deep_view().take(i as int)),
            decreases n - i,
        {
            let ghost prefix = self.files.deep_view().take(i as int);
            out.append(self.files[i].as_str());
            out.append("\n");
            proof {
                reveal_strlit("\n");
                let prefix1 = self.files.deep_view().take(i + 1);
                assert(prefix1.drop_last() =~= prefix);
                assert(out@ =~= spec_ledger_text(prefix1));
            }
            i = i + 1;
        }
        proof {
            assert(self.files.deep_view().take(n as int) =~= self@);
        }
        out
    }

    pub fn get(&self) -> (r: &Vec<String>)
        ensures
            r.deep_view() == self@,
    {
        &self.files
    }

    pub fn set(&mut self, v: Vec<String>)
        ensures
            final(self)@ == v.deep_view(),
    {
        self.files = v;
    }

    pub fn clear(&mut self)
        ensures
            final(self)@ == Seq::<Seq<char>>::empty(),
    {
        self.files = Vec::new();
        proof {
            assert(self@ =~= Seq::<Seq<char>>::empty());
        }
    }

    /// Paths in `other` but not in the ledger (`added`) and paths in the
    /// ledger but not in `other` (`removed`), each in its source's order,
    /// compared by exact path equality.
    pub fn diff(&self, other: &Vec<String>) -> (r: Diff<String>)
        ensures
            r.added.deep_view() == other.deep_view().filter(
                |p: Seq<char>| !self@.contains(p),
            ),
            r.removed.deep_view() == self@.filter(
                |p: Seq<char>| !other.deep_view().contains(p),
            ),
    {
        let mut added: Vec<String> = Vec::new();
        let n = other.len();
        let mut i: usize = 0;
        proof {
            reveal(Seq::filter);
            assert(other.deep_view().take(0).filter(|p: Seq<char>| !self@.contains(p))
                =~= Seq::<Seq<char>>::empty());
        }
        while i < n
            invariant
                0 <= i <= n,
                n == other.len(),
                added.deep_view() == other.deep_view().take(i as int).filter(
                    |p: Seq<char>| !self@.contains(p),
                ),
            decreases n - i,
        {
            let ghost prefix = other.deep_view().take(i as int);
            let keep = !contains_string(&self.files, &other[i]);
            if keep {
                added.push(other[i].clone());
            }
            proof {
                reveal(Seq::filter);
                let prefix1 = other.deep_view().take(i + 1);
                assert(prefix1.drop_last() =~= prefix);
                assert(added.deep_view() =~= prefix1.filter(|p: Seq<char>| !self@.contains(p)));
            }
            i = i + 1;
        }
        let mut removed: Vec<String> = Vec::new();
        let m = self.files.len();
        let mut j: usize = 0;
        proof {
            reveal(Seq::filter);
            assert(self@.take(0).filter(|p: Seq<char>| !other.deep_view().contains(p))
                =~= Seq::<Seq<char>>::empty());
        }
        while j < m
            invariant
                0 <= j <= m,
                m == self.files.len(),
                removed.deep_view() == self@.take(j as int).filter(
                    |p: Seq<char>| !other.deep_view().contains(p),
                ),
            decreases m - j,
        {
            let ghost prefix = self@.take(j as int);
            let keep = !contains_string(other, &self.files[j]);
            if keep {
                removed.push(self.files[j].clone());
            }
            proof {
                reveal(Seq::filter);
                let prefix1 = self@.take(j + 1);
                assert(prefix1.drop_last() =~= prefix);
                assert(removed.deep_view() =~= prefix1.filter(
                    |p: Seq<char>| !other.deep_view().contains(p),
                ));
            }
            j = j + 1;
        }
        proof {
            assert(other.deep_view().take(n as int) =~= other.deep_view());
            assert(self@.take(m as int) =~= self@);
        }
        Diff { added, removed }
    }
}

/// Parse a ledger file's text into its entries.
fn parse(s: &str) -> (r: Vec<String>)
    ensures
        r.deep_view() == spec_ledger_entries(s@),
{
    let mut out: Vec<String> = Vec::new();
    let mut rest: &str = s;
    proof {
        assert(out.deep_view() + spec_ledger_entries(rest@) =~= spec_ledger_entries(s@));
    }
    loop
        invariant_except_break
            out.deep_view() + spec_ledger_entries(rest@) =~= spec_ledger_entries(s@),
        ensures
            out.deep_view() =~= spec_ledger_entries(s@),
        decreases rest@.len(),
    {
        let ghost entries_before = out.deep_view();
        let n = rest.unicode_len();
        let mut i: usize = 0;
        while i < n && rest.get_char(i) != '\n'
            invariant
                0 <= i <= n,
                n == rest@.len(),
                forall|k: int| 0 <= k < i ==> rest@[k] != '\n',
            decreases n - i,
        {
            i = i + 1;
        }
        proof {
            lemma_sep_idx_is(rest@, '\n', i as int);
        }
        let piece = rest.substring_char(0, i);
        proof {
            assert(piece@ =~= rest@.take(i as int));
        }
        let trimmed = trim(piece);
        let ghost head: Seq<Seq<char>> = if spec_trim(piece@).len() == 0 {
            Seq::empty()
        } else {
            seq![spec_trim(piece@)]
        };
        if !trimmed.is_empty() {
            out.push(trimmed.to_owned());
        }
        proof {
            assert(out.deep_view() =~= entries_before + head);
        }
        if i == n {
            proof {
                assert(spec_ledger_entries(rest@) == head);
                assert(out.deep_view() =~= spec_ledger_entries(s@));
            }
            break;
        }
        let next = rest.substring_char(i + 1, n);
        proof {
            assert(next@ =~= rest@.skip(i + 1));
            assert(spec_ledger_entries(rest@) == head + spec_ledger_entries(next@));
            assert(out.deep_view() + spec_ledger_entries(next@) =~= spec_ledger_entries(s@));
        }
        rest = next;
    }
    out
}


/// A path the ledger can persist faithfully: nonempty, no surrounding
/// whitespace, no embedded newline.
pub open spec fn spec_clean_path(e: Seq<char>) -> bool {
    e.len() > 0 && !is_space(e.first()) && !is_space(e.last()) && (forall|k: int|
        0 <= k < e.len() ==> e[k] != '\n')
}

proof fn lemma_ledger_text_front(entries: Seq<Seq<char>>)
    requires
        entries.len() > 0,
    ensures
        spec_ledger_text(entries) == entries.first() + seq!['\n'] + spec_ledger_text(
            entries.drop_first(),
        ),
    decreases entries.len(),
{
    if entries.len() == 1 {
        assert(entries.drop_last() =~= Seq::<Seq<char>>::empty());
        assert(entries.drop_first() =~= Seq::<Seq<char>>::empty());
        assert(spec_ledger_text(entries) =~= entries.first() + seq!['\n'] + spec_ledger_text(
            entries.drop_first(),
        ));
    } else {
        lemma_ledger_text_front(entries.drop_last());
        assert(entries.drop_last().first() == entries.first());
        assert(entries.drop_last().drop_first() =~= entries.drop_first().drop_last());
        assert(entries.drop_first().last() == entries.last());
        assert(spec_ledger_text(entries) =~= entries.first() + seq!['\n'] + (spec_ledger_text(
            entries.drop_first().drop_last(),
        ) + entries.drop_first().last() + seq!['\n']));
    }
}

/// Law: the ledger file format round-trips.  Parsing the text that `store`
/// writes yields exactly the entries that were stored, for any entries that
/// are real paths; so what an apply persists is what the next run reads
/// back.
pub proof fn lemma_ledger_round_trip(entries: Seq<Seq<char>>)
    requires
        forall|i: int| 0 <= i < entries.len() ==> spec_clean_path(#[trigger] entries[i]),
    ensures
        spec_ledger_entries(spec_ledger_text(entries)) == entries,
    decreases entries.len(),
{
    let text = spec_ledger_text(entries);
    if entries.len() == 0 {
        assert(text =~= Seq::<char>::empty());
        assert(spec_ledger_entries(text) =~= entries);
    } else {
        lemma_ledger_text_front(entries);
        let e0 = entries.first();
        let rest = spec_ledger_text(entries.drop_first());
        assert(spec_clean_path(e0));
        assert(forall|k: int| 0 <= k < e0.len() ==> text[k] == e0[k]);
        assert(text[e0.len() as int] == '\n');
        lemma_sep_idx_is(text, '\n', e0.len() as int);
        assert(text.take(e0.len() as int) =~= e0);
        assert(trim_front(e0) == e0);
        assert(trim_back(e0) == e0);
        assert(text.skip(e0.len() as int + 1) =~= rest);
        lemma_ledger_round_trip(entries.drop_first());
        assert(spec_ledger_entries(text) =~= seq![e0] + entries.drop_first());
        assert(seq![e0] + entries.drop_first() =~= entries);
    }
}

} // verus!
