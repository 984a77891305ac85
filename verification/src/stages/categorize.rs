//! Third stage: the tokens of all lists that share a tag are merged into one
//! sorted list without repetitions.

use vstd::prelude::*;
use vstd::utf8::*;
use crate::cache::CachedSet;
use crate::config::Config;
use crate::filter_list::strings_view;
use crate::input::file::{lemma_lines_of_closed_line, lines_of};
use crate::input::Read;
use crate::text::{
    append_bytes, compare_bytes, lemma_encode_utf8_nonempty, lemma_lex_lt_total,
    lemma_lex_lt_transitive, lex_lt, lines_view, str_bytes, str_from_utf8, str_trim, trim_spec,
    ByteOrder, LF,
};

verus! {

/// Each line comes before the next in the lexicographic order, so none comes
/// twice.
pub open spec fn strictly_increasing(lines: Seq<Seq<u8>>) -> bool {
    forall|i: int, j: int| 0 <= i < j < lines.len() ==> lex_lt(lines[i], lines[j])
}

/// No line is empty.
pub open spec fn all_nonempty(lines: Seq<Seq<u8>>) -> bool {
    forall|i: int| 0 <= i < lines.len() ==> (#[trigger] lines[i]).len() > 0
}

/// The lines one after the other, each followed by a line feed.
pub open spec fn render_spec(lines: Seq<Seq<u8>>) -> Seq<u8>
    decreases lines.len(),
{
    if lines.len() == 0 {
        Seq::empty()
    } else {
        render_spec(lines.drop_last()) + lines.last() + seq![LF]
    }
}

/// What a chunk contributes to a category: its text without the white space
/// around it. A chunk that is not UTF-8, or holds nothing but white space,
/// contributes nothing.
pub open spec fn normalized(chunk: Seq<u8>) -> Option<Seq<u8>> {
    if !valid_utf8(chunk) {
        None
    } else {
        let text = trim_spec(decode_utf8(chunk));
        if text.len() == 0 {
            None
        } else {
            Some(encode_utf8(text))
        }
    }
}

/// The lines that the chunks contribute.
pub open spec fn contributed(chunks: Seq<Seq<u8>>) -> Set<Seq<u8>> {
    Set::new(
        |line: Seq<u8>|
            exists|j: int| 0 <= j < chunks.len() && normalized(#[trigger] chunks[j]) == Some(line),
    )
}

/// The lines that the chunks of several lists contribute together.
pub open spec fn merged(sources: Seq<Seq<Seq<u8>>>) -> Set<Seq<u8>> {
    Set::new(
        |line: Seq<u8>|
            exists|i: int|
                0 <= i < sources.len() && contributed(#[trigger] sources[i]).contains(line),
    )
}

/// The chunks of several lists, as byte strings.
pub open spec fn sources_view(v: Seq<Vec<Vec<u8>>>) -> Seq<Seq<Seq<u8>>> {
    Seq::new(v.len(), |i: int| lines_view(v[i]@))
}

/// What became of a chunk that was offered to a category.
#[derive(Debug, Clone, Copy, PartialEq, Eq, Structural)]
pub enum Absorbed {
    /// Its line is new to the category.
    Added,
    /// The category held its line already.
    Known,
    /// It holds nothing but white space.
    Blank,
    /// It is not UTF-8; the caller may want to warn.
    Undecodable,
}

/// What a chunk holds once it is decoded and trimmed.
#[derive(Debug)]
pub enum Line {
    /// The chunk is not UTF-8.
    Undecodable,
    /// The chunk holds nothing but white space.
    Blank,
    /// The bytes of the trimmed text.
    Text(Vec<u8>),
}

/// Decodes a chunk and trims the white space around its text.
pub fn normalize_line(chunk: &Vec<u8>) -> (line: Line)
    ensures
        line is Undecodable <==> !valid_utf8(chunk@),
        line is Blank <==> valid_utf8(chunk@) && normalized(chunk@) is None,
        line matches Line::Text(bytes) ==> normalized(chunk@) == Some(bytes@),
{
    broadcast use encode_utf8_decode_utf8;

    match str_from_utf8(chunk.as_slice()) {
        Err(_) => Line::Undecodable,
        Ok(text) => {
            let trimmed = str_trim(text);
            proof {
                lemma_encode_utf8_nonempty(trimmed@);
            }
            if trimmed.is_empty() {
                Line::Blank
            } else {
                Line::Text(str_bytes(trimmed))
            }
        },
    }
}

/// The lines of one category: byte strings in strictly increasing
/// lexicographic order, none of them empty.
pub struct LineSet {
    lines: Vec<Vec<u8>>,
}

impl View for LineSet {
    type V = Seq<Seq<u8>>;

    /// The lines, in their order.
    closed spec fn view(&self) -> Seq<Seq<u8>> {
        lines_view(self.lines@)
    }
}

impl LineSet {
    /// What every set keeps: its lines stand in strictly increasing order
    /// and none is empty.
    pub open spec fn wf(&self) -> bool {
        &&& strictly_increasing(self@)
        &&& all_nonempty(self@)
    }

    /// The lines as a set.
    pub open spec fn lines(&self) -> Set<Seq<u8>> {
        self@.to_set()
    }

    /// A category without lines.
    pub fn new() -> (set: Self)
        ensures
            set@ == Seq::<Seq<u8>>::empty(),
            set.wf(),
    {
        let set = LineSet { lines: Vec::new() };
        assert(lines_view(set.lines@) =~= Seq::empty());
        set
    }

    /// The number of lines.
    pub fn len(&self) -> (n: usize)
        ensures
            n == self@.len(),
    {
        self.lines.len()
    }

    /// The line at position `i` of the order.
    pub fn line(&self, i: usize) -> (line: &Vec<u8>)
        requires
            i < self@.len(),
        ensures
            line@ == self@[i as int],
    {
        &self.lines[i]
    }

    /// Where `line` stands in the order: the number of lines before it, and
    /// whether the set holds it.
    fn position(&self, line: &Vec<u8>) -> (at: (usize, bool))
        requires
            self.wf(),
        ensures
            at.0 <= self@.len(),
            forall|i: int| 0 <= i < at.0 ==> lex_lt(self@[i], line@),
            forall|i: int| at.0 <= i < self@.len() ==> !lex_lt(self@[i], line@),
            at.1 == (at.0 < self@.len() && self@[at.0 as int] == line@),
            at.1 == self@.contains(line@),
    {
        let ghost all = lines_view(self.lines@);
        let mut low: usize = 0;
        let mut high: usize = self.lines.len();
        while low < high
            invariant
                low <= high <= self.lines.len(),
                all == lines_view(self.lines@),
                strictly_increasing(all),
                forall|i: int| 0 <= i < low ==> lex_lt(all[i], line@),
                forall|i: int| high <= i < all.len() ==> !lex_lt(all[i], line@),
            decreases high - low,
        {
            let mid = low + (high - low) / 2;
            match compare_bytes(&self.lines[mid], line) {
                ByteOrder::Before => {
                    assert forall|i: int| 0 <= i < mid + 1 implies lex_lt(all[i], line@) by {
                        if i < mid {
                            lemma_lex_lt_transitive(all[i], all[mid as int], line@);
                        }
                    }
                    low = mid + 1;
                },
                _ => {
                    assert forall|i: int| mid <= i < all.len() implies !lex_lt(all[i], line@) by {
                        if i > mid && lex_lt(all[i], line@) {
                            lemma_lex_lt_transitive(all[mid as int], all[i], line@);
                        }
                    }
                    high = mid;
                },
            }
        }
        let found = if low < self.lines.len() {
            match compare_bytes(&self.lines[low], line) {
                ByteOrder::Same => true,
                _ => false,
            }
        } else {
            false
        };
        proof {
            if found {
                assert(all[low as int] == line@);
            } else if all.contains(line@) {
                let i = choose|i: int| 0 <= i < all.len() && all[i] == line@;
                lemma_lex_lt_total(all[i], line@);
                if i > low {
                    assert(lex_lt(all[low as int], all[i]));
                }
            }
        }
        (low, found)
    }

    /// Whether the set holds the line.
    pub fn contains(&self, line: &Vec<u8>) -> (found: bool)
        requires
            self.wf(),
        ensures
            found == self.lines().contains(line@),
    {
        self.position(line).1
    }

    /// Puts a line into the set, at its place in the order. An empty line, or
    /// one that the set holds already, changes nothing. Returns whether the
    /// line was added.
    pub fn insert(&mut self, line: Vec<u8>) -> (added: bool)
        requires
            old(self).wf(),
        ensures
            added == (line@.len() > 0 && !old(self).lines().contains(line@)),
            final(self).lines() == if line@.len() > 0 {
                old(self).lines().insert(line@)
            } else {
                old(self).lines()
            },
            final(self).wf(),
    {
        let (at, found) = self.position(&line);
        if found || line.len() == 0 {
            return false;
        }
        let ghost before = lines_view(self.lines@);
        let ghost new_line = line@;
        self.lines.insert(at, line);
        let ghost after = lines_view(self.lines@);
        proof {
            assert(after =~= before.insert(at as int, new_line));
            assert forall|i: int, j: int| 0 <= i < j < after.len() implies lex_lt(
                after[i],
                after[j],
            ) by {
                if j == at {
                    assert(after[i] == before[i]);
                } else if i == at {
                    assert(after[j] == before[j - 1]);
                    lemma_lex_lt_total(before[j - 1], new_line);
                    if before[j - 1] == new_line {
                        if j - 1 > at {
                            assert(lex_lt(before[at as int], before[j - 1]));
                        }
                    }
                } else if j < at {
                    assert(after[i] == before[i] && after[j] == before[j]);
                } else if i < at {
                    assert(after[i] == before[i] && after[j] == before[j - 1]);
                } else {
                    assert(after[i] == before[i - 1] && after[j] == before[j - 1]);
                }
            }
            assert forall|i: int| 0 <= i < after.len() implies (#[trigger] after[i]).len() > 0 by {
                if i < at {
                    assert(after[i] == before[i]);
                } else if i > at {
                    assert(after[i] == before[i - 1]);
                }
            }
            assert(after.to_set() =~= before.to_set().insert(new_line)) by {
                assert forall|l: Seq<u8>| after.to_set().contains(l) <==> before.to_set().insert(
                    new_line,
                ).contains(l) by {
                    if before.contains(l) {
                        let i = choose|i: int| 0 <= i < before.len() && before[i] == l;
                        if i < at {
                            assert(after[i] == l);
                        } else {
                            assert(after[i + 1] == l);
                        }
                    }
                    if l == new_line {
                        assert(after[at as int] == l);
                    }
                    if after.contains(l) {
                        let i = choose|i: int| 0 <= i < after.len() && after[i] == l;
                        if i < at {
                            assert(before[i] == l);
                        } else if i > at {
                            assert(before[i - 1] == l);
                        }
                    }
                }
            }
        }
        true
    }

    /// Offers a chunk to the category: its text, decoded and trimmed, is put
    /// into the set unless it is empty.
    pub fn absorb(&mut self, chunk: &Vec<u8>) -> (outcome: Absorbed)
        requires
            old(self).wf(),
        ensures
            final(self).lines() == match normalized(chunk@) {
                Some(line) => old(self).lines().insert(line),
                None => old(self).lines(),
            },
            outcome == match normalized(chunk@) {
                Some(line) => if old(self).lines().contains(line) {
                    Absorbed::Known
                } else {
                    Absorbed::Added
                },
                None => if valid_utf8(chunk@) {
                    Absorbed::Blank
                } else {
                    Absorbed::Undecodable
                },
            },
            final(self).wf(),
    {
        match normalize_line(chunk) {
            Line::Undecodable => Absorbed::Undecodable,
            Line::Blank => Absorbed::Blank,
            Line::Text(line) => {
                proof {
                    lemma_encode_utf8_nonempty(trim_spec(decode_utf8(chunk@)));
                }
                if self.insert(line) {
                    Absorbed::Added
                } else {
                    Absorbed::Known
                }
            },
        }
    }

    /// Takes what the reader of a contributing list handed over. A chunk is
    /// offered to the category, and the list is read on. At the end of the
    /// list, or when its reader fails, `None` says that the list is done:
    /// what was read of it stays, and the next list is read.
    pub fn take(&mut self, read: Read) -> (outcome: Option<Absorbed>)
        requires
            old(self).wf(),
        ensures
            final(self).wf(),
            match read {
                Read::Chunk(chunk) => {
                    &&& final(self).lines() == match normalized(chunk@) {
                        Some(line) => old(self).lines().insert(line),
                        None => old(self).lines(),
                    }
                    &&& outcome == Some(
                        match normalized(chunk@) {
                            Some(line) => if old(self).lines().contains(line) {
                                Absorbed::Known
                            } else {
                                Absorbed::Added
                            },
                            None => if valid_utf8(chunk@) {
                                Absorbed::Blank
                            } else {
                                Absorbed::Undecodable
                            },
                        },
                    )
                },
                _ => outcome is None && final(self)@ == old(self)@,
            },
    {
        match read {
            Read::Chunk(chunk) => Some(self.absorb(&chunk)),
            _ => None,
        }
    }

    /// The content of the category's file: every line in order, each followed
    /// by a line feed.
    pub fn render(&self) -> (out: Vec<u8>)
        ensures
            out@ == render_spec(self@),
    {
        let ghost all = lines_view(self.lines@);
        let mut out: Vec<u8> = Vec::new();
        let mut i: usize = 0;
        assert(all.take(0) =~= Seq::empty());
        while i < self.lines.len()
            invariant
                i <= self.lines.len(),
                all == lines_view(self.lines@),
                out@ == render_spec(all.take(i as int)),
            decreases self.lines.len() - i,
        {
            assert(all.take(i + 1).drop_last() =~= all.take(i as int));
            assert(all.take(i + 1).last() == self.lines@[i as int]@);
            append_bytes(&mut out, &self.lines[i]);
            out.push(LF);
            i += 1;
        }
        assert(all.take(self.lines.len() as int) =~= all);
        out
    }
}

/// Merges the chunks of the lists that contribute to a category. The result
/// holds the trimmed text of every chunk that decodes and is not blank, once.
pub fn categorize(sources: &Vec<Vec<Vec<u8>>>) -> (set: LineSet)
    ensures
        set.lines() == merged(sources_view(sources@)),
        set.wf(),
{
    let mut set = LineSet::new();
    let ghost all = sources_view(sources@);
    let mut i: usize = 0;
    assert(set.lines() =~= merged(all.take(0)));
    while i < sources.len()
        invariant
            i <= sources.len(),
            all == sources_view(sources@),
            set.lines() == merged(all.take(i as int)),
            set.wf(),
        decreases sources.len() - i,
    {
        let chunks = &sources[i];
        let ghost start = set.lines();
        let ghost these = lines_view(chunks@);
        let mut j: usize = 0;
        assert(set.lines() =~= start.union(contributed(these.take(0))));
        while j < chunks.len()
            invariant
                j <= chunks.len(),
                these == lines_view(chunks@),
                set.lines() == start.union(contributed(these.take(j as int))),
                strictly_increasing(set@),
                all_nonempty(set@),
            decreases chunks.len() - j,
        {
            let ghost before = set.lines();
            set.absorb(&chunks[j]);
            proof {
                let done = these.take(j as int);
                let next = these.take(j + 1);
                assert(next[j as int] == chunks@[j as int]@);
                assert forall|l: Seq<u8>|
                    contributed(next).contains(l) <==> contributed(done).contains(l) || normalized(
                        chunks@[j as int]@,
                    ) == Some(l) by {
                    if contributed(done).contains(l) {
                        let k = choose|k: int|
                            0 <= k < done.len() && normalized(#[trigger] done[k]) == Some(l);
                        assert(next[k] == done[k]);
                    }
                    if contributed(next).contains(l) {
                        let k = choose|k: int|
                            0 <= k < next.len() && normalized(#[trigger] next[k]) == Some(l);
                        if k < j {
                            assert(done[k] == next[k]);
                        }
                    }
                }
                assert(set.lines() =~= start.union(contributed(next)));
            }
            j += 1;
        }
        proof {
            assert(these.take(chunks.len() as int) =~= these);
            let done = all.take(i as int);
            let next = all.take(i + 1);
            assert(next[i as int] == these);
            assert forall|l: Seq<u8>|
                merged(next).contains(l) <==> merged(done).contains(l) || contributed(
                    these,
                ).contains(l) by {
                if merged(done).contains(l) {
                    let k = choose|k: int|
                        0 <= k < done.len() && contributed(#[trigger] done[k]).contains(l);
                    assert(next[k] == done[k]);
                }
                if merged(next).contains(l) {
                    let k = choose|k: int|
                        0 <= k < next.len() && contributed(#[trigger] next[k]).contains(l);
                    if k < i {
                        assert(done[k] == next[k]);
                    }
                }
            }
            assert(set.lines() =~= merged(next));
        }
        i += 1;
    }
    assert(all.take(sources.len() as int) =~= all);
    set
}

/// A set of lines has one order only: two rows of lines that are both
/// strictly increasing and hold the same lines are the same row. So the
/// lines that the sources contribute fix the category's file, byte for byte.
pub proof fn lemma_sorted_unique(a: Seq<Seq<u8>>, b: Seq<Seq<u8>>)
    requires
        strictly_increasing(a),
        strictly_increasing(b),
        a.to_set() == b.to_set(),
    ensures
        a == b,
    decreases a.len(),
{
    if a.len() == 0 {
        if b.len() > 0 {
            assert(b.to_set().contains(b[0]));
            assert(a.contains(b[0]));
        }
        assert(a =~= b);
    } else {
        let x = a.last();
        assert(a.to_set().contains(a[a.len() - 1]));
        assert(b.contains(x));
        let j = choose|j: int| 0 <= j < b.len() && b[j] == x;
        let y = b.last();
        assert(b.to_set().contains(b[b.len() - 1]));
        assert(a.contains(y));
        let i = choose|i: int| 0 <= i < a.len() && a[i] == y;
        lemma_lex_lt_total(x, y);
        if j < b.len() - 1 {
            assert(lex_lt(b[j], b[b.len() - 1]));
            if i < a.len() - 1 {
                assert(lex_lt(a[i], a[a.len() - 1]));
            }
        }
        assert(x == y);
        let a1 = a.drop_last();
        let b1 = b.drop_last();
        assert forall|e: Seq<u8>| a1.to_set().contains(e) <==> b1.to_set().contains(e) by {
            lemma_lex_lt_total(e, x);
            if a1.contains(e) {
                let k = choose|k: int| 0 <= k < a1.len() && a1[k] == e;
                assert(lex_lt(a[k], a[a.len() - 1]));
                assert(a.to_set().contains(a[k]));
                assert(b.contains(e));
                let m = choose|m: int| 0 <= m < b.len() && b[m] == e;
                assert(b1[m] == e);
            }
            if b1.contains(e) {
                let k = choose|k: int| 0 <= k < b1.len() && b1[k] == e;
                assert(lex_lt(b[k], b[b.len() - 1]));
                assert(b.to_set().contains(b[k]));
                assert(a.contains(e));
                let m = choose|m: int| 0 <= m < a.len() && a[m] == e;
                assert(a1[m] == e);
            }
        }
        assert(a1.to_set() =~= b1.to_set());
        lemma_sorted_unique(a1, b1);
        assert(a =~= a1.push(x));
        assert(b =~= b1.push(y));
    }
}

/// A category's file is read back as it was written: where no line holds a
/// line feed, the lines of the file are the lines of the category, in their
/// order, each with its line feed.
pub proof fn lemma_rendered_lines(lines: Seq<Seq<u8>>)
    requires
        forall|k: int| 0 <= k < lines.len() ==> !(#[trigger] lines[k]).contains(LF),
    ensures
        lines_of(render_spec(lines)) == Seq::new(lines.len(), |k: int| lines[k].push(LF)),
    decreases lines.len(),
{
    let read = Seq::new(lines.len(), |k: int| lines[k].push(LF));
    if lines.len() == 0 {
        assert(lines_of(render_spec(lines)) =~= read);
    } else {
        let init = lines.drop_last();
        let before = Seq::new(init.len(), |k: int| init[k].push(LF));
        assert forall|k: int| 0 <= k < init.len() implies !(#[trigger] init[k]).contains(LF) by {
            assert(init[k] == lines[k]);
        }
        lemma_rendered_lines(init);
        assert(lines_of(render_spec(init)) == before);
        if before.len() > 0 {
            assert(before.last() == init[init.len() - 1].push(LF));
        }
        assert(lines[lines.len() - 1] == lines.last());
        lemma_lines_of_closed_line(render_spec(init), lines.last());
        assert(before.push(lines.last().push(LF)) =~= read);
    }
}

/// What the categorize stage does with a tag.
#[derive(Debug, Clone, Copy, PartialEq, Eq, Structural)]
pub enum CategoryVerdict {
    /// The category's file of the last run still stands for the tag: nothing
    /// is done, and the tag is noted as cached.
    Unchanged,
    /// The category is assembled anew from the extracted lists.
    Update,
}

/// Whether every list that carries the tag is noted as cached.
pub open spec fn all_cached(config: &Config, tag: Seq<char>, cached: Set<Seq<char>>) -> bool {
    forall|i: int|
        0 <= i < config.lists@.len() && (#[trigger] config.lists@[i]).tagged(tag)
            ==> cached.contains(config.lists@[i].id@)
}

/// Whether the last run is known and had as many lists with this tag as this
/// run has.
pub open spec fn membership_kept(config: &Config, tag: Seq<char>) -> bool {
    config.cached_config matches Some(previous) && previous.tagged_lists(tag).len()
        == config.tagged_lists(tag).len()
}

/// Whether the category of a tag is left as it is: the last run had as many
/// lists with the tag, each list with the tag is cached, and the category's
/// file is there.
pub open spec fn category_unchanged(
    config: &Config,
    tag: Seq<char>,
    cached: Set<Seq<char>>,
    file_exists: bool,
) -> bool {
    membership_kept(config, tag) && all_cached(config, tag, cached) && file_exists
}

/// The flag at position `k`; a position without a flag counts as `false`.
pub open spec fn flag_at(flags: Seq<bool>, k: int) -> bool {
    0 <= k < flags.len() && flags[k]
}

/// The tags that the categorize stage notes as cached: those whose category
/// it leaves unchanged.
pub open spec fn categorize_cached(config: &Config, cached: Set<Seq<char>>, files: Seq<bool>) -> Set<
    Seq<char>,
> {
    Set::new(
        |tag: Seq<char>|
            exists|k: int|
                0 <= k < config.tags().len() && #[trigger] config.tags()[k] == tag
                    && category_unchanged(config, tag, cached, flag_at(files, k)),
    )
}

/// What the categorize stage does with each tag, and what it hands on.
pub struct CategorizePlan {
    /// The tags of the configuration, each once, in the order of their first
    /// occurrence.
    pub tags: Vec<String>,
    /// The verdict on each tag, in the order of `tags`.
    pub verdicts: Vec<CategoryVerdict>,
    /// The tags whose category is left unchanged.
    pub cached_tags: CachedSet,
}

/// Whether every list of the configuration that carries the tag is in the
/// set.
fn lists_are_cached(config: &Config, tag: &String, cached_lists: &CachedSet) -> (all: bool)
    ensures
        all == all_cached(config, tag@, cached_lists@),
{
    let mut i: usize = 0;
    while i < config.lists.len()
        invariant
            i <= config.lists.len(),
            forall|j: int|
                0 <= j < i && (#[trigger] config.lists@[j]).tagged(tag@) ==> cached_lists@.contains(
                    config.lists@[j].id@,
                ),
        decreases config.lists.len() - i,
    {
        if config.lists[i].has_tag(tag) && !cached_lists.contains(config.lists[i].id.as_str()) {
            assert(config.lists@[i as int].tagged(tag@));
            return false;
        }
        i += 1;
    }
    true
}

/// Whether the last run is known and had as many lists with the tag.
fn has_kept_membership(config: &Config, tag: &String) -> (kept: bool)
    ensures
        kept == membership_kept(config, tag@),
{
    match &config.cached_config {
        Some(previous) => {
            let then = previous.lists_with_tag(tag);
            let now = config.lists_with_tag(tag);
            then.len() == now.len()
        },
        None => false,
    }
}

/// Plans the categorize stage: `cached_lists` is what the extract stage
/// handed on, and `category_files` says of each tag, in the order of
/// `Config::get_tags`, whether its category file is there and can be opened.
pub fn plan_categorize(config: &Config, cached_lists: &CachedSet, category_files: &Vec<bool>) -> (plan:
    CategorizePlan)
    ensures
        strings_view(plan.tags@) == config.tags(),
        plan.verdicts@.len() == config.tags().len(),
        forall|k: int|
            0 <= k < config.tags().len() ==> (#[trigger] plan.verdicts@[k] is Unchanged
                <==> category_unchanged(
                config,
                config.tags()[k],
                cached_lists@,
                flag_at(category_files@, k),
            )),
        plan.cached_tags@ == categorize_cached(config, cached_lists@, category_files@),
{
    let tags = config.get_tags();
    let mut verdicts: Vec<CategoryVerdict> = Vec::new();
    let mut cached_tags = CachedSet::new();
    let mut k: usize = 0;
    while k < tags.len()
        invariant
            k <= tags.len(),
            strings_view(tags@) == config.tags(),
            verdicts@.len() == k,
            forall|j: int|
                0 <= j < k ==> (#[trigger] verdicts@[j] is Unchanged <==> category_unchanged(
                    config,
                    config.tags()[j],
                    cached_lists@,
                    flag_at(category_files@, j),
                )),
            forall|tag: Seq<char>|
                cached_tags@.contains(tag) <==> exists|j: int|
                    0 <= j < k && #[trigger] config.tags()[j] == tag && category_unchanged(
                        config,
                        tag,
                        cached_lists@,
                        flag_at(category_files@, j),
                    ),
        decreases tags.len() - k,
    {
        let tag = &tags[k];
        assert(tag@ == config.tags()[k as int]) by {
            assert(strings_view(tags@)[k as int] == tag@);
        }
        let file_exists = k < category_files.len() && category_files[k];
        let unchanged = has_kept_membership(config, tag) && lists_are_cached(
            config,
            tag,
            cached_lists,
        ) && file_exists;
        let ghost before = cached_tags@;
        if unchanged {
            cached_tags.insert(tag.clone());
            verdicts.push(CategoryVerdict::Unchanged);
        } else {
            verdicts.push(CategoryVerdict::Update);
        }
        proof {
            assert forall|t: Seq<char>|
                cached_tags@.contains(t) <==> exists|j: int|
                    0 <= j < k + 1 && #[trigger] config.tags()[j] == t && category_unchanged(
                        config,
                        t,
                        cached_lists@,
                        flag_at(category_files@, j),
                    ) by {
                if before.contains(t) {
                    let j = choose|j: int|
                        0 <= j < k && #[trigger] config.tags()[j] == t && category_unchanged(
                            config,
                            t,
                            cached_lists@,
                            flag_at(category_files@, j),
                        );
                    assert(0 <= j < k + 1);
                }
                if unchanged && t == tag@ {
                    assert(config.tags()[k as int] == t);
                }
            }
        }
        k += 1;
    }
    assert(cached_tags@ =~= categorize_cached(config, cached_lists@, category_files@));
    CategorizePlan { tags, verdicts, cached_tags }
}

} // verus!
