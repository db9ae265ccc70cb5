use vstd::prelude::*;

use crate::error::Error;

verus! {

pub open spec fn start_key(n: Seq<char>) -> Seq<char> {
    n + seq!['.', 's', 't', 'a', 'r', 't']
}

pub open spec fn size_key(n: Seq<char>) -> Seq<char> {
    n + seq!['.', 's', 'i', 'z', 'e']
}

pub open spec fn end_key(n: Seq<char>) -> Seq<char> {
    n + seq!['.', 'e', 'n', 'd']
}

/// The environment with the region `n` recorded as starting at `start` and
/// spanning `size` bytes.
pub open spec fn with_region(m: Map<Seq<char>, usize>, n: Seq<char>, start: usize, size: usize) -> Map<
    Seq<char>,
    usize,
> {
    m.insert(start_key(n), start).insert(size_key(n), size).insert(end_key(n), (start + size) as usize)
}

/// Every region recorded in `m` ends where its start and size say.
pub open spec fn regions_consistent(m: Map<Seq<char>, usize>) -> bool {
    forall|n: Seq<char>|
        #![trigger m.contains_key(start_key(n))]
        m.contains_key(start_key(n)) ==> {
            &&& m.contains_key(size_key(n))
            &&& m.contains_key(end_key(n))
            &&& m[end_key(n)] == m[start_key(n)] + m[size_key(n)]
        }
}

/// The region recorded under one destination name.
pub struct Region {
    pub name: String,
    pub start: usize,
    pub size: usize,
    pub end: usize,
}

pub open spec fn regions_map(rs: Seq<Region>) -> Map<Seq<char>, usize>
    decreases rs.len(),
{
    if rs.len() == 0 {
        Map::empty()
    } else {
        let r = rs.last();
        regions_map(rs.drop_last()).insert(start_key(r.name@), r.start).insert(
            size_key(r.name@),
            r.size,
        ).insert(end_key(r.name@), r.end)
    }
}

/// Keys of two regions are equal only if the names and the fields are.
pub proof fn lemma_keys_distinct(n: Seq<char>, m: Seq<char>)
    ensures
        start_key(n) == start_key(m) ==> n == m,
        size_key(n) == size_key(m) ==> n == m,
        end_key(n) == end_key(m) ==> n == m,
        start_key(n) != size_key(m),
        start_key(n) != end_key(m),
        size_key(n) != end_key(m),
        size_key(n) != start_key(m),
        end_key(n) != start_key(m),
        end_key(n) != size_key(m),
{
    let (sn, zn, en) = (start_key(n), size_key(n), end_key(n));
    let (sm, zm, em) = (start_key(m), size_key(m), end_key(m));
    assert(sn.last() == 't' && sm.last() == 't');
    assert(zn.last() == 'e' && zm.last() == 'e');
    assert(en.last() == 'd' && em.last() == 'd');
    if sn == sm {
        assert(n =~= sn.subrange(0, n.len() as int));
        assert(m =~= sm.subrange(0, m.len() as int));
    }
    if zn == zm {
        assert(n =~= zn.subrange(0, n.len() as int));
        assert(m =~= zm.subrange(0, m.len() as int));
    }
    if en == em {
        assert(n =~= en.subrange(0, n.len() as int));
        assert(m =~= em.subrange(0, m.len() as int));
    }
}

/// Recording a region keeps every region consistent.
pub proof fn lemma_with_region_consistent(
    m: Map<Seq<char>, usize>,
    n: Seq<char>,
    start: usize,
    size: usize,
)
    requires
        regions_consistent(m),
        start + size <= usize::MAX,
    ensures
        regions_consistent(with_region(m, n, start, size)),
{
    let w = with_region(m, n, start, size);
    assert forall|a: Seq<char>| #[trigger] w.contains_key(start_key(a)) implies {
        &&& w.contains_key(size_key(a))
        &&& w.contains_key(end_key(a))
        &&& w[end_key(a)] == w[start_key(a)] + w[size_key(a)]
    } by {
        lemma_keys_distinct(a, n);
        if a != n {
            assert(m.contains_key(start_key(a)));
        }
    }
}

/// The regions recorded so far, as a map from `<name>.start`, `<name>.size`
/// and `<name>.end` to their values.
pub struct Variables {
    regions: Vec<Region>,
}

impl View for Variables {
    type V = Map<Seq<char>, usize>;

    closed spec fn view(&self) -> Map<Seq<char>, usize> {
        regions_map(self.regions@)
    }
}

impl Variables {
    pub closed spec fn wf(&self) -> bool {
        forall|i: int|
            0 <= i < self.regions@.len() ==> #[trigger] self.regions@[i].end == self.regions@[i].start
                + self.regions@[i].size
    }

    proof fn lemma_consistent(rs: Seq<Region>)
        requires
            forall|i: int| 0 <= i < rs.len() ==> #[trigger] rs[i].end == rs[i].start + rs[i].size,
        ensures
            regions_consistent(regions_map(rs)),
        decreases rs.len(),
    {
        if rs.len() > 0 {
            let d = rs.drop_last();
            assert forall|i: int| 0 <= i < d.len() implies #[trigger] d[i].end == d[i].start
                + d[i].size by {
                assert(d[i] == rs[i]);
            }
            Self::lemma_consistent(d);
            let r = rs.last();
            assert(rs[rs.len() - 1] == r);
            assert(r.end == r.start + r.size);
            lemma_with_region_consistent(regions_map(d), r.name@, r.start, r.size);
            assert(regions_map(rs) == with_region(regions_map(d), r.name@, r.start, r.size));
        }
    }

    /// In a well-formed environment every region ends at its start plus its size.
    pub proof fn lemma_wf_consistent(&self)
        requires
            self.wf(),
        ensures
            regions_consistent(self@),
    {
        Self::lemma_consistent(self.regions@);
    }

    pub fn new() -> (r: Self)
        ensures
            r.wf(),
            r@ == Map::<Seq<char>, usize>::empty(),
    {
        Variables { regions: Vec::new() }
    }

    /// The value recorded under a key such as `buf.start`.
    pub fn get(&self, key: &str) -> (r: Option<usize>)
        ensures
            self@.contains_key(key@) ==> r == Some(self@[key@]),
            !self@.contains_key(key@) ==> r is None,
    {
        let mut i: usize = self.regions.len();
        assert(self.regions@.subrange(0, i as int) =~= self.regions@);
        while i > 0
            invariant
                i <= self.regions@.len(),
                self@.contains_key(key@) == regions_map(self.regions@.subrange(0, i as int)).contains_key(
                    key@,
                ),
                self@.contains_key(key@) ==> self@[key@] == regions_map(
                    self.regions@.subrange(0, i as int),
                )[key@],
            decreases i,
        {
            let ghost pre = self.regions@.subrange(0, i as int);
            assert(pre.drop_last() =~= self.regions@.subrange(0, i - 1));
            let r = &self.regions[i - 1];
            assert(pre.last() == *r);
            let k = key.to_owned();
            let mut ks = r.name.clone();
            ks.append(".start");
            let mut kz = r.name.clone();
            kz.append(".size");
            let mut ke = r.name.clone();
            ke.append(".end");
            proof {
                reveal_strlit(".start");
                reveal_strlit(".size");
                reveal_strlit(".end");
                assert(ks@ =~= start_key(r.name@));
                assert(kz@ =~= size_key(r.name@));
                assert(ke@ =~= end_key(r.name@));
            }
            if ke == k {
                return Some(r.end);
            }
            if kz == k {
                return Some(r.size);
            }
            if ks == k {
                return Some(r.start);
            }
            i = i - 1;
        }
        proof {
            assert(self.regions@.subrange(0, 0) =~= Seq::<Region>::empty());
            assert(!regions_map(self.regions@.subrange(0, 0)).contains_key(key@));
        }
        None
    }

    /// Records region `name` at `start` with `size` bytes, unless a region of
    /// that name is already recorded or its end does not fit in `usize`.
    pub fn add_variables(&mut self, name: &str, start: usize, size: usize) -> (r: Result<(), Error>)
        ensures
            old(self).wf() ==> final(self).wf(),
            old(self)@.contains_key(start_key(name@)) ==> (r matches Err(e)
                && e == Error::DuplicateDefinition(e->DuplicateDefinition_0) && e->DuplicateDefinition_0@
                == name@ && final(self)@ == old(self)@),
            !old(self)@.contains_key(start_key(name@)) && start + size > usize::MAX ==> (r matches Err(
                e,
            ) && e == Error::ArithmeticOverflow && final(self)@ == old(self)@),
            !old(self)@.contains_key(start_key(name@)) && start + size <= usize::MAX ==> (r is Ok
                && final(self)@ == with_region(old(self)@, name@, start, size)),
    {
        let mut key_start = name.to_owned();
        key_start.append(".start");
        proof {
            reveal_strlit(".start");
            assert(key_start@ =~= start_key(name@));
        }
        if self.get(key_start.as_str()).is_some() {
            return Err(Error::DuplicateDefinition(name.to_owned()));
        }
        let end = match start.checked_add(size) {
            Some(e) => e,
            None => {
                return Err(Error::ArithmeticOverflow);
            },
        };
        let ghost before = self.regions@;
        self.regions.push(Region { name: name.to_owned(), start, size, end });
        proof {
            assert(self.regions@.drop_last() =~= before);
            if old(self).wf() {
                assert forall|i: int| 0 <= i < self.regions@.len() implies #[trigger] self.regions@[i].end
                    == self.regions@[i].start + self.regions@[i].size by {
                    if i < before.len() {
                        assert(self.regions@[i] == before[i]);
                    }
                }
            }
        }
        Ok(())
    }
}

/// The constants given from outside: names to texts. A later definition of a
/// name replaces an earlier one.
pub struct Constants {
    entries: Vec<(String, String)>,
}

pub open spec fn entries_map(es: Seq<(String, String)>) -> Map<Seq<char>, Seq<char>>
    decreases es.len(),
{
    if es.len() == 0 {
        Map::empty()
    } else {
        entries_map(es.drop_last()).insert(es.last().0@, es.last().1@)
    }
}

impl View for Constants {
    type V = Map<Seq<char>, Seq<char>>;

    closed spec fn view(&self) -> Map<Seq<char>, Seq<char>> {
        entries_map(self.entries@)
    }
}

impl Constants {
    pub fn new() -> (r: Self)
        ensures
            r@ == Map::<Seq<char>, Seq<char>>::empty(),
    {
        Constants { entries: Vec::new() }
    }

    /// Binds `name` to `value`.
    pub fn define(&mut self, name: String, value: String)
        ensures
            final(self)@ == old(self)@.insert(name@, value@),
    {
        let ghost before = self.entries@;
        self.entries.push((name, value));
        proof {
            assert(self.entries@.drop_last() =~= before);
        }
    }

    /// The text bound to `name`.
    pub fn get(&self, name: &str) -> (r: Option<String>)
        ensures
            self@.contains_key(name@) ==> (r matches Some(v) && v@ == self@[name@]),
            !self@.contains_key(name@) ==> r is None,
    {
        let k = name.to_owned();
        let mut i: usize = self.entries.len();
        assert(self.entries@.subrange(0, i as int) =~= self.entries@);
        while i > 0
            invariant
                i <= self.entries@.len(),
                k@ == name@,
                self@.contains_key(name@) == entries_map(self.entries@.subrange(0, i as int)).contains_key(
                    name@,
                ),
                self@.contains_key(name@) ==> self@[name@] == entries_map(
                    self.entries@.subrange(0, i as int),
                )[name@],
            decreases i,
        {
            let ghost pre = self.entries@.subrange(0, i as int);
            assert(pre.drop_last() =~= self.entries@.subrange(0, i - 1));
            let e = &self.entries[i - 1];
            assert(pre.last() == *e);
            if e.0 == k {
                return Some(e.1.clone());
            }
            i = i - 1;
        }
        proof {
            assert(self.entries@.subrange(0, 0) =~= Seq::<(String, String)>::empty());
        }
        None
    }
}

/// A constant's name: upper-case letters and `_` only.
pub open spec fn const_name_ok(s: Seq<char>) -> bool {
    forall|k: int| 0 <= k < s.len() ==> ('A' <= #[trigger] s[k] && s[k] <= 'Z') || s[k] == '_'
}

/// The index of the first `=` of `s` at or after `i` (the length if none).
pub open spec fn equals_index(s: Seq<char>, i: int) -> int
    decreases s.len() - i,
{
    if 0 <= i < s.len() && s[i] != '=' {
        equals_index(s, i + 1)
    } else {
        i
    }
}

proof fn lemma_equals_index(s: Seq<char>, i: int)
    requires
        0 <= i <= s.len(),
    ensures
        i <= equals_index(s, i) <= s.len(),
        equals_index(s, i) < s.len() ==> s[equals_index(s, i)] == '=',
    decreases s.len() - i,
{
    if i < s.len() && s[i] != '=' {
        lemma_equals_index(s, i + 1);
    }
}

/// Checks that `s` is a valid constant name and hands it back.
pub fn valid_const_name(s: &str) -> (r: Result<&str, Error>)
    ensures
        const_name_ok(s@) ==> (r matches Ok(t) && t@ == s@),
        !const_name_ok(s@) ==> (r matches Err(e) && e == Error::InvalidConstantName(
            e->InvalidConstantName_0,
        ) && e->InvalidConstantName_0@ == s@),
{
    let n = s.unicode_len();
    let mut i: usize = 0;
    while i < n
        invariant
            i <= n,
            n == s@.len(),
            forall|k: int| 0 <= k < i ==> ('A' <= #[trigger] s@[k] && s@[k] <= 'Z') || s@[k] == '_',
        decreases n - i,
    {
        let c = s.get_char(i);
        if !((c >= 'A' && c <= 'Z') || c == '_') {
            return Err(Error::InvalidConstantName(s.to_owned()));
        }
        i = i + 1;
    }
    Ok(s)
}

/// Splits a `NAME=value` definition at its first `=`.
pub fn parse_consts(s: &str) -> (r: Result<(String, String), Error>)
    ensures
        ({
            let p = equals_index(s@, 0);
            if p >= s@.len() {
                r matches Err(e) && e == Error::MissingEquals(e->MissingEquals_0) && e->MissingEquals_0@
                    == s@
            } else if !const_name_ok(s@.subrange(0, p)) {
                r matches Err(e) && e == Error::InvalidConstantName(e->InvalidConstantName_0)
                    && e->InvalidConstantName_0@ == s@.subrange(0, p)
            } else {
                r matches Ok((k, v)) && k@ == s@.subrange(0, p) && v@ == s@.subrange(p + 1, s@.len() as int)
            }
        }),
{
    proof {
        lemma_equals_index(s@, 0);
    }
    let n = s.unicode_len();
    let mut pos: usize = 0;
    while pos < n && s.get_char(pos) != '='
        invariant
            pos <= n,
            n == s@.len(),
            equals_index(s@, pos as int) == equals_index(s@, 0),
        decreases n - pos,
    {
        pos = pos + 1;
    }
    if pos == n {
        return Err(Error::MissingEquals(s.to_owned()));
    }
    let name = valid_const_name(s.substring_char(0, pos))?;
    let key = name.to_owned();
    let value = s.substring_char(pos + 1, n).to_owned();
    Ok((key, value))
}

} // verus!
