use vstd::prelude::*;

use crate::addr2line::{max_pat_len, lemma_max_pat_len, Registry};

verus! {

/// `pat` occurs in `data` starting at byte offset `off`.
pub open spec fn occurs_at(pat: Seq<u8>, data: Seq<u8>, off: int) -> bool {
    &&& 0 <= off
    &&& off + pat.len() <= data.len()
    &&& data.subrange(off, off + pat.len() as int) == pat
}

/// Pattern number `k` of `pats` occurs in `data` at offset `off`.
pub open spec fn is_hit(pats: Seq<Seq<u8>>, data: Seq<u8>, k: int, off: int) -> bool {
    &&& 0 <= k < pats.len()
    &&& occurs_at(pats[k], data, off)
}

/// Some pattern of `pats` occurs in `data` at offset `off`.
pub open spec fn hit_at(pats: Seq<Seq<u8>>, data: Seq<u8>, off: int) -> bool {
    exists|k: int| is_hit(pats, data, k, off)
}

/// No pattern of `pats` occurs anywhere in `data`.
pub open spec fn no_hit(pats: Seq<Seq<u8>>, data: Seq<u8>) -> bool {
    forall|k: int, off: int| !is_hit(pats, data, k, off)
}

/// Pattern `k` occurs at `off`, no pattern occurs at any earlier offset,
/// and no pattern with a smaller index occurs at `off` itself.
pub open spec fn earliest_hit(pats: Seq<Seq<u8>>, data: Seq<u8>, k: int, off: int) -> bool {
    &&& is_hit(pats, data, k, off)
    &&& forall|o: int| 0 <= o < off ==> !hit_at(pats, data, o)
    &&& forall|j: int| 0 <= j < k ==> !is_hit(pats, data, j, off)
}

/// The verdict of a finished scan: either no registered marker occurs in
/// the bytes, or the marker of candidate `index` is the one occurring at
/// the lowest offset (`offset`), smallest index winning at that offset.
#[derive(Clone, Copy, PartialEq, Eq, Debug)]
pub enum ScanOutcome {
    NoMatch,
    Found { index: usize, offset: usize },
}

/// What a scan verdict claims about pattern list `pats` and the scanned
/// bytes `data`.
pub open spec fn outcome_matches(pats: Seq<Seq<u8>>, data: Seq<u8>, r: ScanOutcome) -> bool {
    match r {
        ScanOutcome::NoMatch => no_hit(pats, data),
        ScanOutcome::Found { index, offset } => earliest_hit(pats, data, index as int, offset as int),
    }
}

#[verifier::external_type_specification]
#[verifier::external_body]
pub struct ExAhoCorasick(aho_corasick::AhoCorasick);

/// The list of patterns a multi-pattern automaton was built from, in the
/// order they were handed to the builder.
pub uninterp spec fn ac_patterns(m: aho_corasick::AhoCorasick) -> Seq<Seq<u8>>;

/// Whether a search automaton can be built for this pattern list.
/// Construction is deterministic in the patterns — it fails only when the
/// automaton would exceed its size limits — so its success is a function
/// of the pattern list alone.
pub uninterp spec fn ac_builds(pats: Seq<Seq<u8>>) -> bool;

/// The views of a list of byte vectors.
pub open spec fn views_of_bytes(ps: Seq<Vec<u8>>) -> Seq<Seq<u8>> {
    ps.map_values(|p: Vec<u8>| p@)
}

/// Relies on `aho_corasick::AhoCorasickBuilder::build` with
/// `MatchKind::LeftmostFirst`: on success the returned automaton searches
/// for exactly the given patterns, in the given order, and whether it
/// succeeds depends on the patterns alone (`ac_builds`).
#[verifier::external_body]
fn ac_build(patterns: &Vec<Vec<u8>>) -> (r: Option<aho_corasick::AhoCorasick>)
    ensures
        r matches Some(m) ==> ac_patterns(m) == views_of_bytes(patterns@),
        (r is Some) <==> ac_builds(views_of_bytes(patterns@)),
{
    aho_corasick::AhoCorasick::builder()
        .match_kind(aho_corasick::MatchKind::LeftmostFirst)
        .build(patterns)
        .ok()
}

/// Relies on `aho_corasick::AhoCorasick::find` under leftmost-first match
/// semantics: the reported match is the one starting earliest in the
/// haystack, and among matches starting at the same position the pattern
/// listed first wins; `None` means no pattern occurs in the haystack.
/// The unanchored byte-slice search used here is supported by the
/// automaton `ac_build` constructs, so the call does not fail.
#[verifier::external_body]
fn ac_find(m: &aho_corasick::AhoCorasick, window: &[u8]) -> (r: Option<(usize, usize)>)
    ensures
        match r {
            Some(hit) => earliest_hit(ac_patterns(*m), window@, hit.0 as int, hit.1 as int),
            None => no_hit(ac_patterns(*m), window@),
        },
{
    m.find(window).map(|mat| (mat.pattern().as_usize(), mat.start()))
}

/// A hit in `a` is still a hit after `a` is extended by `c`.
proof fn lemma_hit_extends(pats: Seq<Seq<u8>>, a: Seq<u8>, c: Seq<u8>, k: int, off: int)
    requires
        is_hit(pats, a, k, off),
    ensures
        is_hit(pats, a + c, k, off),
{
    let len = pats[k].len() as int;
    assert((a + c).subrange(off, off + len) =~= a.subrange(off, off + len));
}

/// A hit in the suffix `data.skip(base)` is a hit in `data`, shifted by
/// `base`.
proof fn lemma_window_hit_to_data(pats: Seq<Seq<u8>>, data: Seq<u8>, base: int, k: int, p: int)
    requires
        0 <= base <= data.len(),
        is_hit(pats, data.skip(base), k, p),
    ensures
        is_hit(pats, data, k, p + base),
{
    let len = pats[k].len() as int;
    assert(data.subrange(p + base, p + base + len) =~= data.skip(base).subrange(p, p + len));
}

/// Every hit in `a + c` is a hit in `a`, or lies entirely inside the
/// suffix starting at `base`, provided the suffix reaches back at least
/// `keep` bytes into `a` (or to its start) and no pattern is longer than
/// `keep + 1`.
proof fn lemma_hit_split(
    pats: Seq<Seq<u8>>,
    a: Seq<u8>,
    c: Seq<u8>,
    keep: int,
    base: int,
    k: int,
    off: int,
)
    requires
        forall|j: int| 0 <= j < pats.len() ==> (#[trigger] pats[j]).len() <= keep + 1,
        base == a.len() - (if keep <= a.len() {
            keep as int
        } else {
            a.len() as int
        }),
        is_hit(pats, a + c, k, off),
    ensures
        is_hit(pats, a, k, off) || (off >= base && is_hit(pats, (a + c).skip(base), k, off - base)),
{
    let len = pats[k].len() as int;
    if off + len <= a.len() {
        assert(a.subrange(off, off + len) =~= (a + c).subrange(off, off + len));
        assert(is_hit(pats, a, k, off));
    } else {
        assert(off >= a.len() + 1 - len);
        assert(len <= keep + 1);
        assert(off >= base);
        let w = (a + c).skip(base);
        assert(w.subrange(off - base, off - base + len) =~= (a + c).subrange(off, off + len));
        assert(is_hit(pats, w, k, off - base));
    }
}

/// Appends the bytes of `y` to a copy of `x`.
fn concat_bytes(x: &Vec<u8>, y: &[u8]) -> (r: Vec<u8>)
    ensures
        r@ == x@ + y@,
{
    let mut r: Vec<u8> = Vec::new();
    let mut i: usize = 0;
    while i < x.len()
        invariant
            0 <= i <= x@.len(),
            r@ =~= x@.take(i as int),
        decreases x@.len() - i,
    {
        r.push(x[i]);
        proof {
            assert(r@ =~= x@.take(i + 1));
        }
        i = i + 1;
    }
    let mut j: usize = 0;
    while j < y.len()
        invariant
            0 <= j <= y@.len(),
            r@ =~= x@ + y@.take(j as int),
        decreases y@.len() - j,
    {
        r.push(y[j]);
        proof {
            assert(r@ =~= x@ + y@.take(j + 1));
        }
        j = j + 1;
    }
    proof {
        assert(r@ =~= x@ + y@);
    }
    r
}

/// The suffix of `x` starting at `start`, as a fresh vector.
fn suffix_bytes(x: &Vec<u8>, start: usize) -> (r: Vec<u8>)
    requires
        start <= x@.len(),
    ensures
        r@ == x@.skip(start as int),
{
    let mut r: Vec<u8> = Vec::new();
    let mut i: usize = start;
    while i < x.len()
        invariant
            start <= i <= x@.len(),
            r@ =~= x@.subrange(start as int, i as int),
        decreases x@.len() - i,
    {
        r.push(x[i]);
        proof {
            assert(r@ =~= x@.subrange(start as int, i + 1));
        }
        i = i + 1;
    }
    proof {
        assert(r@ =~= x@.skip(start as int));
    }
    r
}

/// The bounded-memory marker scanner.  Bytes are handed to it in chunks of
/// any size; it keeps only a suffix of what it has seen (one byte shorter
/// than the longest marker) so that a marker straddling a chunk boundary
/// is still found, and it tracks the earliest marker occurrence over
/// everything fed so far.
pub struct Scanner {
    matcher: aho_corasick::AhoCorasick,
    overlap: Vec<u8>,
    keep: usize,
    total: usize,
    best: Option<(usize, usize)>,
    pats: Ghost<Seq<Seq<u8>>>,
    fed: Ghost<Seq<u8>>,
}

impl Scanner {
    /// The patterns this scanner searches for.
    pub closed spec fn patterns(self) -> Seq<Seq<u8>> {
        self.pats@
    }

    /// Every byte fed to this scanner so far, in order.
    pub closed spec fn fed_bytes(self) -> Seq<u8> {
        self.fed@
    }

    /// Scanner invariant: the automaton matches exactly `patterns()`, all
    /// patterns are non-empty, `overlap` is the retained suffix of the fed
    /// bytes, and `best` is the earliest hit over everything fed so far.
    pub closed spec fn inv(self) -> bool {
        &&& ac_patterns(self.matcher) == self.pats@
        &&& forall|k: int| 0 <= k < self.pats@.len() ==> (#[trigger] self.pats@[k]).len() > 0
        &&& (max_pat_len(self.pats@) == 0 ==> self.keep == 0)
        &&& (max_pat_len(self.pats@) > 0 ==> self.keep + 1 == max_pat_len(self.pats@))
        &&& self.total == self.fed@.len()
        &&& self.overlap@.len() == if self.keep <= self.fed@.len() {
            self.keep as int
        } else {
            self.fed@.len() as int
        }
        &&& self.overlap@ == self.fed@.skip(self.fed@.len() - self.overlap@.len())
        &&& match self.best {
            None => no_hit(self.pats@, self.fed@),
            Some(b) => earliest_hit(self.pats@, self.fed@, b.0 as int, b.1 as int),
        }
    }

    /// Builds a scanner for the markers of `registry`.  Success hinges on
    /// nothing but the marker list: `None` comes exactly when no search
    /// automaton exists for it (`ac_builds`), never for any other reason.
    pub fn new(registry: &Registry) -> (r: Option<Scanner>)
        requires
            registry.wf(),
        ensures
            r matches Some(s) ==> s.inv() && s.patterns() == registry.magics()
                && s.fed_bytes() == Seq::<u8>::empty(),
            (r is Some) <==> ac_builds(registry.magics()),
    {
        let mut pats: Vec<Vec<u8>> = Vec::new();
        let mut i: usize = 0;
        while i < registry.candidates.len()
            invariant
                0 <= i <= registry.candidates@.len(),
                pats@.len() == i,
                forall|l: int|
                    0 <= l < i ==> (#[trigger] pats@[l])@ == registry.candidates@[l].magic@,
            decreases registry.candidates@.len() - i,
        {
            let mut m: Vec<u8> = Vec::new();
            let magic = &registry.candidates[i].magic;
            let mut j: usize = 0;
            while j < magic.len()
                invariant
                    0 <= j <= magic@.len(),
                    m@ =~= magic@.take(j as int),
                decreases magic@.len() - j,
            {
                m.push(magic[j]);
                proof {
                    assert(m@ =~= magic@.take(j + 1));
                }
                j = j + 1;
            }
            proof {
                assert(m@ =~= magic@);
            }
            pats.push(m);
            i = i + 1;
        }
        proof {
            assert forall|l: int| 0 <= l < pats@.len() implies #[trigger] views_of_bytes(pats@)[l]
                == registry.magics()[l] by {
                assert(views_of_bytes(pats@)[l] == pats@[l]@);
            }
            assert(views_of_bytes(pats@) =~= registry.magics());
        }
        let matcher = match ac_build(&pats) {
            Some(m) => m,
            None => {
                return None;
            },
        };
        let max = registry.max_magic_len();
        let keep = if max == 0 {
            0
        } else {
            max - 1
        };
        let s = Scanner {
            matcher,
            overlap: Vec::new(),
            keep,
            total: 0,
            best: None,
            pats: Ghost(registry.magics()),
            fed: Ghost(Seq::empty()),
        };
        proof {
            assert forall|k: int, off: int| !is_hit(s.pats@, s.fed@, k, off) by {
                if 0 <= k < s.pats@.len() {
                    assert(s.pats@[k].len() > 0);
                }
            }
            assert(s.overlap@ =~= s.fed@.skip(0));
        }
        Some(s)
    }

    /// Hands the scanner the next chunk of the artifact's bytes.  The
    /// chunk may have any size, including zero; a marker that straddles
    /// the boundary between two chunks is found all the same, because the
    /// scanner searches the retained suffix together with the new chunk.
    pub fn feed(&mut self, chunk: &[u8])
        requires
            old(self).inv(),
            old(self).fed_bytes().len() + chunk@.len() <= usize::MAX,
        ensures
            final(self).inv(),
            final(self).patterns() == old(self).patterns(),
            final(self).fed_bytes() == old(self).fed_bytes() + chunk@,
    {
        let ghost pats = self.pats@;
        let ghost a = self.fed@;
        let ghost fed_new = a + chunk@;
        let ghost keepg = self.keep as int;

        let window = concat_bytes(&self.overlap, chunk);
        let base: usize = self.total - self.overlap.len();
        proof {
            if pats.len() > 0 {
                lemma_max_pat_len(pats);
            }
            assert(window@ =~= fed_new.skip(base as int));
        }
        let found = ac_find(&self.matcher, window.as_slice());

        // Correspondence between hits in the whole input, hits in what was
        // fed before, and hits in the searched window.
        proof {
            assert forall|k: int, off: int| is_hit(pats, fed_new, k, off) implies (is_hit(
                pats,
                a,
                k,
                off,
            ) || (off >= base && is_hit(pats, window@, k, off - base))) by {
                lemma_hit_split(pats, a, chunk@, keepg, base as int, k, off);
            }
            assert forall|k: int, off: int| is_hit(pats, a, k, off) implies is_hit(
                pats,
                fed_new,
                k,
                off,
            ) by {
                lemma_hit_extends(pats, a, chunk@, k, off);
            }
            assert forall|k: int, p: int| is_hit(pats, window@, k, p) implies is_hit(
                pats,
                fed_new,
                k,
                p + base,
            ) by {
                lemma_window_hit_to_data(pats, fed_new, base as int, k, p);
            }
        }

        match found {
            None => {
                // No hit in the window: every hit of the whole input is an
                // old one, so the previous best still describes it.
                proof {
                    match self.best {
                        None => {
                            assert forall|k: int, off: int| !is_hit(pats, fed_new, k, off) by {
                                if is_hit(pats, fed_new, k, off) {
                                    if off >= base && is_hit(pats, window@, k, off - base) {
                                    } else {
                                        assert(is_hit(pats, a, k, off));
                                    }
                                }
                            }
                        },
                        Some(b) => {
                            let bk = b.0 as int;
                            let boff = b.1 as int;
                            assert forall|o: int| 0 <= o < boff implies !hit_at(
                                pats,
                                fed_new,
                                o,
                            ) by {
                                if hit_at(pats, fed_new, o) {
                                    let k = choose|k: int| is_hit(pats, fed_new, k, o);
                                    assert(is_hit(pats, fed_new, k, o));
                                    if o >= base && is_hit(pats, window@, k, o - base) {
                                    } else {
                                        assert(is_hit(pats, a, k, o));
                                        assert(hit_at(pats, a, o));
                                    }
                                }
                            }
                            assert forall|j: int| 0 <= j < bk implies !is_hit(
                                pats,
                                fed_new,
                                j,
                                boff,
                            ) by {
                                if is_hit(pats, fed_new, j, boff) {
                                    if boff >= base && is_hit(pats, window@, j, boff - base) {
                                    } else {
                                        assert(is_hit(pats, a, j, boff));
                                    }
                                }
                            }
                            assert(earliest_hit(pats, fed_new, bk, boff));
                        },
                    }
                }
            },
            Some(hit) => {
                let k = hit.0;
                let p = hit.1;
                proof {
                    assert(pats[k as int].len() > 0);
                    assert(p + pats[k as int].len() <= window@.len());
                    assert(base + window@.len() == fed_new.len());
                }
                let woff: usize = base + p;
                let new_best: (usize, usize) = match self.best {
                    None => (k, woff),
                    Some(b) => {
                        if woff < b.1 || (woff == b.1 && k < b.0) {
                            (k, woff)
                        } else {
                            b
                        }
                    },
                };
                proof {
                    let nk = new_best.0 as int;
                    let noff = new_best.1 as int;
                    assert(is_hit(pats, fed_new, nk, noff));
                    assert forall|o: int| 0 <= o < noff implies !hit_at(pats, fed_new, o) by {
                        if hit_at(pats, fed_new, o) {
                            let j = choose|j: int| is_hit(pats, fed_new, j, o);
                            assert(is_hit(pats, fed_new, j, o));
                            if o >= base && is_hit(pats, window@, j, o - base) {
                                // earlier window hit than the leftmost one
                                assert(o - base < p);
                                assert(hit_at(pats, window@, o - base));
                            } else {
                                assert(is_hit(pats, a, j, o));
                                assert(hit_at(pats, a, o));
                                match self.best {
                                    None => {},
                                    Some(b) => {
                                        assert(o < b.1);
                                    },
                                }
                            }
                        }
                    }
                    assert forall|j: int| 0 <= j < nk implies !is_hit(pats, fed_new, j, noff) by {
                        if is_hit(pats, fed_new, j, noff) {
                            if noff >= base && is_hit(pats, window@, j, noff - base) {
                                // a window hit at the leftmost position with a
                                // smaller pattern index contradicts the
                                // window's own tie-break
                                assert(hit_at(pats, window@, noff - base));
                                assert(noff - base >= p);
                                assert(noff <= woff);
                                assert(noff == woff);
                                assert(j < k as int);
                                assert(is_hit(pats, window@, j, p as int));
                            } else {
                                assert(is_hit(pats, a, j, noff));
                                match self.best {
                                    None => {
                                        assert(false);
                                    },
                                    Some(b) => {
                                        assert(noff <= b.1);
                                        assert(hit_at(pats, a, noff));
                                    },
                                }
                            }
                        }
                    }
                    assert(earliest_hit(pats, fed_new, nk, noff));
                }
                self.best = Some(new_best);
            },
        }

        // Retain the suffix that the next chunk's search must still see.
        let new_overlap = if window.len() >= self.keep {
            suffix_bytes(&window, window.len() - self.keep)
        } else {
            window
        };
        proof {
            if new_overlap@.len() < keepg {
                // the whole input is still shorter than the longest marker
                assert(a.len() == if keepg <= a.len() {
                    keepg
                } else {
                    a.len() as int
                });
                assert(base == 0);
            }
        }
        self.overlap = new_overlap;
        self.total = self.total + chunk.len();
        self.fed = Ghost(fed_new);
        proof {
            assert(self.overlap@ =~= fed_new.skip(fed_new.len() - self.overlap@.len()));
        }
    }

    /// The verdict over everything fed so far.
    pub fn outcome(&self) -> (r: ScanOutcome)
        requires
            self.inv(),
        ensures
            outcome_matches(self.patterns(), self.fed_bytes(), r),
    {
        match self.best {
            None => ScanOutcome::NoMatch,
            Some(b) => ScanOutcome::Found { index: b.0, offset: b.1 },
        }
    }
}

/// Law: when the scanned bytes contain none of the registered markers,
/// the verdict is `NoMatch` — and `NoMatch` is never reported otherwise.
pub proof fn lemma_no_marker_means_no_match(pats: Seq<Seq<u8>>, data: Seq<u8>, r: ScanOutcome)
    requires
        outcome_matches(pats, data, r),
    ensures
        (r matches ScanOutcome::NoMatch) <==> no_hit(pats, data),
{
    match r {
        ScanOutcome::NoMatch => {},
        ScanOutcome::Found { index, offset } => {
            assert(is_hit(pats, data, index as int, offset as int));
        },
    }
}

/// Law: when marker `k1` occurs at offset `o1`, no marker occurs at any
/// lower offset, and no earlier-listed marker occurs at `o1` itself, the
/// verdict names exactly candidate `k1` at offset `o1`.  In particular,
/// of two marker occurrences the one at the lower offset wins.
pub proof fn lemma_lowest_offset_wins(pats: Seq<Seq<u8>>, data: Seq<u8>, k1: int, o1: int, r: ScanOutcome)
    requires
        outcome_matches(pats, data, r),
        earliest_hit(pats, data, k1, o1),
    ensures
        r matches ScanOutcome::Found { index, offset } && index == k1 && offset == o1,
{
    match r {
        ScanOutcome::NoMatch => {
            assert(is_hit(pats, data, k1, o1));
            assert(false);
        },
        ScanOutcome::Found { index, offset } => {
            let k = index as int;
            let off = offset as int;
            assert(hit_at(pats, data, o1));
            assert(hit_at(pats, data, off));
            assert(off == o1);
            assert(k == k1);
        },
    }
}

/// Law: the verdict is a function of the scanned bytes and the marker
/// list alone.  Any two verdicts that satisfy `outcome_matches` for the
/// same bytes — however those bytes were chunked on the way in — are the
/// same verdict.
pub proof fn lemma_outcome_unique(pats: Seq<Seq<u8>>, data: Seq<u8>, r1: ScanOutcome, r2: ScanOutcome)
    requires
        outcome_matches(pats, data, r1),
        outcome_matches(pats, data, r2),
    ensures
        r1 == r2,
{
    match r1 {
        ScanOutcome::NoMatch => {
            lemma_no_marker_means_no_match(pats, data, r1);
            lemma_no_marker_means_no_match(pats, data, r2);
        },
        ScanOutcome::Found { index, offset } => {
            lemma_lowest_offset_wins(pats, data, index as int, offset as int, r2);
        },
    }
}

/// Scans `data` for the registry's markers, feeding it to the scanner in
/// chunks of `chunk_size` bytes.  The verdict is a function of `data` and
/// the registry alone: the chunk size never changes it, even when a marker
/// straddles a chunk boundary.  Returns `None` exactly when no search
/// automaton exists for the registry's markers (`ac_builds`): success
/// depends on the marker list alone, never on the data.
pub fn scan_bytes(registry: &Registry, data: &[u8], chunk_size: usize) -> (r: Option<ScanOutcome>)
    requires
        registry.wf(),
        chunk_size >= 1,
    ensures
        r matches Some(out) ==> outcome_matches(registry.magics(), data@, out),
        (r is Some) <==> ac_builds(registry.magics()),
{
    let mut scanner = match Scanner::new(registry) {
        Some(s) => s,
        None => {
            return None;
        },
    };
    let mut i: usize = 0;
    while i < data.len()
        invariant
            0 <= i <= data@.len(),
            chunk_size >= 1,
            scanner.inv(),
            scanner.patterns() == registry.magics(),
            scanner.fed_bytes() =~= data@.take(i as int),
        decreases data@.len() - i,
    {
        let end = if data.len() - i < chunk_size {
            data.len()
        } else {
            i + chunk_size
        };
        scanner.feed(&data[i..end]);
        proof {
            assert(data@.take(i as int) + data@.subrange(i as int, end as int) =~= data@.take(
                end as int,
            ));
        }
        i = end;
    }
    proof {
        assert(data@.take(data@.len() as int) =~= data@);
    }
    Some(scanner.outcome())
}

} // verus!
