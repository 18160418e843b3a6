//! Free space on the record target: reading what `df` says, and not asking it
//! too often.

use super::RecordError;
use crate::text::{
    chars_eq, chars_of, char_views, lines, lines_from, str_eq, string_of, words, words_from,
};
use vstd::prelude::*;
use vstd::string::*;

verus! {

/// How long an answer is good, in milliseconds.
pub const SPACE_CACHE_TTL_MS: u64 = 5_000;

/// How long a refusal is good, in milliseconds.
pub const SPACE_CACHE_NEG_TTL_MS: u64 = 5_000;

/// Directories a cache remembers.
pub const SPACE_CACHE_MAX_ENTRIES: usize = 64;

/// What is remembered of one directory.
#[derive(Debug)]
pub struct SpaceEntry<V> {
    pub dir: String,
    /// When it was learned, in milliseconds of a clock that does not go back.
    pub at_ms: u64,
    pub value: V,
}

/// A bounded memory of directories: the oldest is forgotten first.
pub struct SpaceCache<V> {
    entries: Vec<SpaceEntry<V>>,
}

impl<V> View for SpaceCache<V> {
    type V = Seq<(Seq<char>, u64, V)>;

    closed spec fn view(&self) -> Seq<(Seq<char>, u64, V)> {
        Seq::new(
            self.entries@.len(),
            |i: int| (self.entries@[i].dir@, self.entries@[i].at_ms, self.entries@[i].value),
        )
    }
}

/// Where the entry of `dir` is, from `i` on; the length when there is none.
pub open spec fn entry_of<V>(entries: Seq<(Seq<char>, u64, V)>, dir: Seq<char>, i: int) -> int
    decreases entries.len() - i,
{
    if i < 0 || i >= entries.len() {
        entries.len() as int
    } else if entries[i].0 == dir {
        i
    } else {
        entry_of(entries, dir, i + 1)
    }
}

/// The oldest entry among those before `n`, the first of equals.
pub open spec fn oldest<V>(entries: Seq<(Seq<char>, u64, V)>, n: int) -> int
    decreases n,
{
    if n <= 1 {
        0
    } else {
        let o = oldest(entries, n - 1);
        if entries[n - 1].1 < entries[o].1 {
            n - 1
        } else {
            o
        }
    }
}

/// The entries once room has been made for one more.
pub open spec fn evicted<V>(entries: Seq<(Seq<char>, u64, V)>) -> Seq<(Seq<char>, u64, V)> {
    if entries.len() < SPACE_CACHE_MAX_ENTRIES {
        entries
    } else {
        entries.remove(oldest(entries, entries.len() as int))
    }
}

/// The entries with one more, which replaces an earlier one of its directory.
pub open spec fn with_entry<V>(
    entries: Seq<(Seq<char>, u64, V)>,
    dir: Seq<char>,
    at_ms: u64,
    value: V,
) -> Seq<(Seq<char>, u64, V)> {
    let i = entry_of(entries, dir, 0);
    if i < entries.len() {
        entries.update(i, (dir, at_ms, value))
    } else {
        entries.push((dir, at_ms, value))
    }
}

/// Whether an entry learned at `at_ms` is still good at `now_ms`.
pub open spec fn fresh(at_ms: u64, now_ms: u64, ttl_ms: u64) -> bool {
    now_ms - at_ms < ttl_ms
}

proof fn lemma_oldest<V>(entries: Seq<(Seq<char>, u64, V)>, n: int)
    requires
        1 <= n <= entries.len(),
    ensures
        0 <= oldest(entries, n) < n,
        forall|i: int| 0 <= i < n ==> entries[oldest(entries, n)].1 <= (#[trigger] entries[i]).1,
    decreases n,
{
    if n > 1 {
        lemma_oldest(entries, n - 1);
    }
}

impl<V> SpaceCache<V> {
    /// A cache that remembers nothing.
    pub fn new() -> (c: SpaceCache<V>)
        ensures
            c@ == Seq::<(Seq<char>, u64, V)>::empty(),
    {
        let c: SpaceCache<V> = SpaceCache { entries: Vec::new() };
        assert(c@ =~= Seq::empty());
        c
    }

    /// Directories remembered.
    pub fn len(&self) -> (n: usize)
        ensures
            n == self@.len(),
    {
        self.entries.len()
    }

    /// Forget every directory.
    pub fn clear(&mut self)
        ensures
            final(self)@ == Seq::<(Seq<char>, u64, V)>::empty(),
    {
        self.entries.clear();
        assert(self@ =~= Seq::empty());
    }

    /// Forget the oldest directory when the cache is full.
    pub fn evict_oldest(&mut self)
        ensures
            final(self)@ == evicted(old(self)@),
    {
        let n: usize = self.entries.len();
        if n < SPACE_CACHE_MAX_ENTRIES {
            return;
        }
        let mut o: usize = 0;
        let mut i: usize = 1;
        while i < n
            invariant
                1 <= i <= n == self.entries@.len(),
                *self == *old(self),
                o < i,
                o == oldest(self@, i as int),
            decreases n - i,
        {
            assert(self@[i as int].1 == self.entries@[i as int].at_ms);
            assert(self@[o as int].1 == self.entries@[o as int].at_ms);
            if self.entries[i].at_ms < self.entries[o].at_ms {
                o = i;
            }
            i = i + 1;
        }
        let ghost before = self@;
        self.entries.remove(o);
        assert(self@ =~= before.remove(o as int));
    }

    fn find(&self, dir: &str) -> (r: usize)
        ensures
            r == entry_of(self@, dir@, 0),
            r <= self@.len(),
            r < self@.len() ==> self@[r as int].0 == dir@,
    {
        let n: usize = self.entries.len();
        let mut i: usize = 0;
        while i < n
            invariant
                i <= n == self.entries@.len(),
                entry_of(self@, dir@, 0) == entry_of(self@, dir@, i as int),
            decreases n - i,
        {
            assert(self@[i as int].0 == self.entries@[i as int].dir@);
            if str_eq(self.entries[i].dir.as_str(), dir) {
                return i;
            }
            i = i + 1;
        }
        n
    }

    /// Remember a directory, after making room.
    pub fn put(&mut self, dir: &str, now_ms: u64, value: V)
        ensures
            final(self)@ == with_entry(evicted(old(self)@), dir@, now_ms, value),
    {
        self.evict_oldest();
        let ghost room = self@;
        let i: usize = self.find(dir);
        let entry: SpaceEntry<V> = SpaceEntry { dir: dir.to_owned(), at_ms: now_ms, value };
        if i < self.entries.len() {
            self.entries.set(i, entry);
            assert(self@ =~= room.update(i as int, (dir@, now_ms, value)));
        } else {
            self.entries.push(entry);
            assert(self@ =~= room.push((dir@, now_ms, value)));
        }
    }

    /// What is remembered of a directory, while it is good.
    pub fn get(&self, dir: &str, now_ms: u64, ttl_ms: u64) -> (r: Option<&V>)
        ensures
            ({
                let i = entry_of(self@, dir@, 0);
                match r {
                    Some(v) => i < self@.len() && fresh(self@[i].1, now_ms, ttl_ms) && *v
                        == self@[i].2,
                    None => i >= self@.len() || !fresh(self@[i].1, now_ms, ttl_ms),
                }
            }),
    {
        let i: usize = self.find(dir);
        if i < self.entries.len() {
            assert(self@[i as int].1 == self.entries@[i as int].at_ms);
            let at: u64 = self.entries[i].at_ms;
            if now_ms < at || now_ms - at < ttl_ms {
                assert(self@[i as int].2 == self.entries@[i as int].value);
                return Some(&self.entries[i].value);
            }
        }
        None
    }
}

/// What is remembered of a directory, while it is good.
pub open spec fn remembered<V>(
    entries: Seq<(Seq<char>, u64, V)>,
    dir: Seq<char>,
    now_ms: u64,
    ttl_ms: u64,
) -> Option<V> {
    let i = entry_of(entries, dir, 0);
    if i < entries.len() && fresh(entries[i].1, now_ms, ttl_ms) {
        Some(entries[i].2)
    } else {
        None
    }
}

/// What to do to learn the space of a directory.
#[derive(Debug)]
pub enum SpaceStep {
    /// Nothing: it is known. The number is carried as its bits.
    Known(u64),
    /// Nothing: it was refused a moment ago, and is not asked again so soon.
    Refused(RecordError),
    /// Ask the system.
    Ask,
}

/// What was learned of directories: their space, and why some refused.
pub struct SpaceMemory {
    pub sizes: SpaceCache<u64>,
    pub refusals: SpaceCache<String>,
}

impl SpaceMemory {
    /// Nothing is known.
    pub fn new() -> (m: SpaceMemory)
        ensures
            m.sizes@.len() == 0,
            m.refusals@.len() == 0,
    {
        SpaceMemory { sizes: SpaceCache::new(), refusals: SpaceCache::new() }
    }

    /// What to do to learn the space of a directory: what is known counts
    /// first, then a refusal.
    pub fn lookup(&self, dir: &str, now_ms: u64) -> (step: SpaceStep)
        ensures
            match (
                remembered(self.sizes@, dir@, now_ms, SPACE_CACHE_TTL_MS),
                remembered(self.refusals@, dir@, now_ms, SPACE_CACHE_NEG_TTL_MS),
            ) {
                (Some(v), _) => step == SpaceStep::Known(v),
                (None, Some(s)) => step matches SpaceStep::Refused(RecordError::Disk(e)) && e@
                    == s@,
                (None, None) => step is Ask,
            },
    {
        match self.sizes.get(dir, now_ms, SPACE_CACHE_TTL_MS) {
            Some(v) => return SpaceStep::Known(*v),
            None => {},
        }
        match self.refusals.get(dir, now_ms, SPACE_CACHE_NEG_TTL_MS) {
            Some(s) => SpaceStep::Refused(RecordError::Disk(s.as_str().to_owned())),
            None => SpaceStep::Ask,
        }
    }

    /// The system has answered. A refusal is remembered with its token.
    pub fn answered(&mut self, dir: &str, now_ms: u64, answer: &Result<u64, RecordError>)
        ensures
            match *answer {
                Ok(v) => {
                    &&& final(self).sizes@ == with_entry(evicted(old(self).sizes@), dir@, now_ms, v)
                    &&& final(self).refusals@ == old(self).refusals@
                },
                Err(e) => {
                    &&& final(self).sizes@ == old(self).sizes@
                    &&& exists|s: String|
                        s@ == e.token() + ": "@ + e.detail() && final(self).refusals@
                            == #[trigger] with_entry(evicted(old(self).refusals@), dir@, now_ms, s)
                },
            },
    {
        match answer {
            Ok(v) => self.sizes.put(dir, now_ms, *v),
            Err(e) => {
                let s: String = e.message();
                self.refusals.put(dir, now_ms, s);
                assert(self.refusals@ == with_entry(
                    evicted(old(self).refusals@),
                    dir@,
                    now_ms,
                    s,
                ));
            },
        }
    }
}

/// However many directories come by, a cache stays within its bound.
pub proof fn law_cache_stays_bounded<V>(entries: Seq<(Seq<char>, u64, V)>, dir: Seq<char>, now_ms: u64, value: V)
    requires
        entries.len() <= SPACE_CACHE_MAX_ENTRIES,
    ensures
        with_entry(evicted(entries), dir, now_ms, value).len() <= SPACE_CACHE_MAX_ENTRIES,
{
    if entries.len() == SPACE_CACHE_MAX_ENTRIES {
        lemma_oldest(entries, entries.len() as int);
    }
    lemma_entry(evicted(entries), dir, 0);
}

/// What leaves a full cache is no younger than anything that stays.
pub proof fn law_the_oldest_leaves<V>(entries: Seq<(Seq<char>, u64, V)>, i: int)
    requires
        entries.len() >= SPACE_CACHE_MAX_ENTRIES,
        0 <= i < entries.len(),
    ensures
        entries[oldest(entries, entries.len() as int)].1 <= entries[i].1,
        evicted(entries).len() == entries.len() - 1,
{
    lemma_oldest(entries, entries.len() as int);
}

/// What is put is what is got while it is good, and nothing once it is stale.
pub proof fn law_put_is_got_until_stale<V>(entries: Seq<(Seq<char>, u64, V)>, dir: Seq<char>, at_ms: u64, value: V)
    ensures
        ({
            let after = with_entry(entries, dir, at_ms, value);
            let i = entry_of(after, dir, 0);
            0 <= i < after.len() && after[i] == (dir, at_ms, value)
        }),
{
    lemma_entry(entries, dir, 0);
    let i = entry_of(entries, dir, 0);
    let after = with_entry(entries, dir, at_ms, value);
    lemma_entry(after, dir, 0);
    if i >= entries.len() {
        assert(after[entries.len() as int].0 == dir);
    } else {
        assert(after[i].0 == dir);
    }
    let k = entry_of(after, dir, 0);
    assert(after[k].0 == dir);
    if k < entries.len() && k != i {
        assert(after[k] == entries[k]);
    }
}

proof fn lemma_entry<V>(entries: Seq<(Seq<char>, u64, V)>, dir: Seq<char>, from: int)
    requires
        0 <= from <= entries.len(),
    ensures
        from <= entry_of(entries, dir, from) <= entries.len(),
        entry_of(entries, dir, from) < entries.len() ==> entries[entry_of(entries, dir, from)].0
            == dir,
        forall|i: int| from <= i < entry_of(entries, dir, from) ==> (#[trigger] entries[i]).0 != dir,
    decreases entries.len() - from,
{
    if from < entries.len() && entries[from].0 != dir {
        lemma_entry(entries, dir, from + 1);
    }
}

/// Whether a column's heading names the available space.
pub open spec fn is_available(heading: Seq<char>) -> bool {
    heading == "Available"@ || heading == "Avail"@
}

/// Where the column of the available space is, from `i` on; the length when
/// there is none.
pub open spec fn available_column(headings: Seq<Seq<char>>, i: int) -> int
    decreases headings.len() - i,
{
    if i < 0 || i >= headings.len() {
        headings.len() as int
    } else if is_available(headings[i]) {
        i
    } else {
        available_column(headings, i + 1)
    }
}

/// The available column of what `df -k` prints: found by its heading, in the
/// last line; where that line has fewer columns, at the same distance from
/// its end. The line itself comes along, to be told where the column is not a
/// number.
pub open spec fn df_column(text: Seq<char>) -> Result<(Seq<char>, Seq<char>), Seq<char>> {
    let all = lines_from(text, 0);
    if all.len() == 0 {
        Err("free-space query returned no output"@)
    } else {
        let headings = words_from(all[0], 0);
        let at = available_column(headings, 0);
        if at >= headings.len() {
            Err("free-space header has no Available column: "@ + all[0])
        } else if all.len() < 2 {
            Err("free-space query returned no data line"@)
        } else {
            let cols = words_from(all.last(), 0);
            let from_end = headings.len() - at;
            if at < cols.len() {
                Ok((cols[at], all.last()))
            } else if from_end <= cols.len() && cols.len() - from_end < cols.len() {
                Ok((cols[cols.len() - from_end], all.last()))
            } else {
                Err("free-space query unparseable: "@ + all.last())
            }
        }
    }
}

fn text_of(chars: &Vec<char>) -> (s: String)
    ensures
        s@ == chars@,
{
    let s: String = string_of(chars.as_slice(), 0, chars.len());
    assert(chars@.subrange(0, chars@.len() as int) =~= chars@);
    s
}

/// Read the available column of what `df -k` prints, and the line it is in.
pub fn df_available(text: &str) -> (r: Result<(String, String), RecordError>)
    ensures
        match (r, df_column(text@)) {
            (Ok(s), Ok(want)) => s.0@ == want.0 && s.1@ == want.1,
            (Err(RecordError::Disk(e)), Err(why)) => e@ == why,
            _ => false,
        },
{
    let chars: Vec<char> = chars_of(text);
    let all: Vec<Vec<char>> = lines(chars.as_slice());
    let ghost want = lines_from(text@, 0);
    if all.len() == 0 {
        return Err(RecordError::Disk("free-space query returned no output".to_owned()));
    }
    assert(want[0] == all@[0]@);
    let headings: Vec<Vec<char>> = words(all[0].as_slice());
    let ghost heads = words_from(want[0], 0);
    let available: Vec<char> = chars_of("Available");
    let avail: Vec<char> = chars_of("Avail");
    let n: usize = headings.len();
    let mut at: usize = 0;
    let mut found: bool = false;
    while at < n && !found
        invariant
            at <= n == headings@.len(),
            char_views(headings@) == heads,
            available@ == "Available"@,
            avail@ == "Avail"@,
            !found ==> available_column(heads, 0) == available_column(heads, at as int),
            found ==> at < n && available_column(heads, 0) == at,
        decreases n - at, if found { 0nat } else { 1nat },
    {
        assert(heads[at as int] == headings@[at as int]@);
        if chars_eq(headings[at].as_slice(), available.as_slice()) || chars_eq(
            headings[at].as_slice(),
            avail.as_slice(),
        ) {
            found = true;
        } else {
            at = at + 1;
        }
    }
    if !found {
        return Err(
            RecordError::Disk(
                "free-space header has no Available column: ".to_owned().concat(
                    text_of(&all[0]).as_str(),
                ),
            ),
        );
    }
    if all.len() < 2 {
        return Err(RecordError::Disk("free-space query returned no data line".to_owned()));
    }
    let last: usize = all.len() - 1;
    assert(want.last() == all@[last as int]@);
    let cols: Vec<Vec<char>> = words(all[last].as_slice());
    let ghost words_of = words_from(want.last(), 0);
    assert(char_views(cols@) == words_of);
    let from_end: usize = n - at;
    if at < cols.len() {
        assert(words_of[at as int] == cols@[at as int]@);
        return Ok((text_of(&cols[at]), text_of(&all[last])));
    }
    if from_end <= cols.len() {
        let k: usize = cols.len() - from_end;
        if k < cols.len() {
            assert(words_of[k as int] == cols@[k as int]@);
            return Ok((text_of(&cols[k]), text_of(&all[last])));
        }
    }
    Err(
        RecordError::Disk(
            "free-space query unparseable: ".to_owned().concat(text_of(&all[last]).as_str()),
        ),
    )
}

} // verus!
