use vstd::prelude::*;

verus! {

/// The byte that separates CSV fields.
pub const COMMA: u8 = 44;

// ---------------------------------------------------------------------------
// Splitting a line at commas
// ---------------------------------------------------------------------------

/// The position of the first comma in a byte string, or its length when it
/// has none.
pub open spec fn comma_pos(s: Seq<u8>) -> int
    decreases s.len(),
{
    if s.len() == 0 {
        0
    } else if s[0] == COMMA {
        0
    } else {
        1 + comma_pos(s.skip(1))
    }
}

/// `comma_pos` points at the first comma: it stays inside the string, lands
/// on a comma unless there is none, and nothing before it is a comma.
pub proof fn lemma_comma_pos_bounds(s: Seq<u8>)
    ensures
        0 <= comma_pos(s) <= s.len(),
        comma_pos(s) < s.len() ==> s[comma_pos(s)] == COMMA,
        forall|j: int| 0 <= j < comma_pos(s) ==> s[j] != COMMA,
    decreases s.len(),
{
    if s.len() > 0 && s[0] != COMMA {
        lemma_comma_pos_bounds(s.skip(1));
        assert forall|j: int| 0 <= j < comma_pos(s) implies s[j] != COMMA by {
            if j > 0 {
                assert(s.skip(1)[j - 1] == s[j]);
            }
        }
    }
}

/// Where the first comma of a string stands, `comma_pos` finds it.
pub proof fn lemma_comma_pos_is(s: Seq<u8>, p: int)
    requires
        0 <= p <= s.len(),
        forall|j: int| 0 <= j < p ==> s[j] != COMMA,
        p < s.len() ==> s[p] == COMMA,
    ensures
        comma_pos(s) == p,
    decreases s.len(),
{
    if p > 0 {
        assert(s[0] != COMMA);
        assert forall|j: int| 0 <= j < p - 1 implies s.skip(1)[j] != COMMA by {
            assert(s.skip(1)[j] == s[j + 1]);
        }
        lemma_comma_pos_is(s.skip(1), p - 1);
    } else {
        if s.len() > 0 {
            assert(s[0] == COMMA);
        }
    }
}

/// The fields of a line: the comma-free stretches between its commas, in
/// order; a line without commas is one field.
pub open spec fn split_commas(s: Seq<u8>) -> Seq<Seq<u8>>
    decreases s.len(),
    via split_commas_decreases
{
    if comma_pos(s) >= s.len() {
        seq![s]
    } else {
        seq![s.take(comma_pos(s))] + split_commas(s.skip(comma_pos(s) + 1))
    }
}

#[via_fn]
proof fn split_commas_decreases(s: Seq<u8>) {
    lemma_comma_pos_bounds(s);
}

/// Splitting a comma-free prefix followed by a comma peels off one field.
proof fn lemma_split_step(t: Seq<u8>, rest: Seq<u8>)
    requires
        forall|j: int| 0 <= j < t.len() ==> t[j] != COMMA,
    ensures
        split_commas(t + seq![COMMA] + rest) == seq![t] + split_commas(rest),
{
    let s = t + seq![COMMA] + rest;
    lemma_comma_pos_is(s, t.len() as int);
    assert(s.take(t.len() as int) =~= t);
    assert(s.skip(t.len() as int + 1) =~= rest);
    assert(split_commas(s) =~= seq![t] + split_commas(rest));
}

/// A comma-free line is a single field.
proof fn lemma_split_whole(t: Seq<u8>)
    requires
        forall|j: int| 0 <= j < t.len() ==> t[j] != COMMA,
    ensures
        split_commas(t) == seq![t],
{
    lemma_comma_pos_is(t, t.len() as int);
}

/// The views of a vector of byte fields.
pub open spec fn fields_view(fs: Seq<Vec<u8>>) -> Seq<Seq<u8>> {
    fs.map_values(|f: Vec<u8>| f@)
}

/// Splits a CSV line at its commas.
pub fn csv_fields(line: &Vec<u8>) -> (r: Vec<Vec<u8>>)
    ensures
        fields_view(r@) == split_commas(line@),
{
    let mut fields: Vec<Vec<u8>> = Vec::new();
    let mut cur: Vec<u8> = Vec::new();
    let mut i: usize = 0;
    proof {
        assert(cur@ + line@.skip(0) =~= line@);
        assert(fields_view(fields@) + split_commas(line@) =~= split_commas(line@));
    }
    while i < line.len()
        invariant
            0 <= i <= line@.len(),
            forall|j: int| 0 <= j < cur@.len() ==> cur@[j] != COMMA,
            split_commas(line@) == fields_view(fields@) + split_commas(
                cur@ + line@.skip(i as int),
            ),
        decreases line@.len() - i,
    {
        let b = line[i];
        if b == COMMA {
            proof {
                assert(cur@ + line@.skip(i as int) =~= cur@ + seq![COMMA] + line@.skip(
                    i as int + 1,
                ));
                lemma_split_step(cur@, line@.skip(i as int + 1));
            }
            let ghost old_fields = fields@;
            let ghost cur_view = cur@;
            fields.push(cur);
            proof {
                assert(fields_view(fields@) =~= fields_view(old_fields) + seq![cur_view]);
                assert(fields_view(old_fields) + seq![cur_view] + split_commas(
                    line@.skip(i as int + 1),
                ) =~= fields_view(old_fields) + (seq![cur_view] + split_commas(
                    line@.skip(i as int + 1),
                )));
            }
            cur = Vec::new();
            proof {
                assert(cur@ + line@.skip(i as int + 1) =~= line@.skip(i as int + 1));
            }
        } else {
            let ghost cur_before = cur@;
            proof {
                assert(cur@ + line@.skip(i as int) =~= (cur@ + seq![b]) + line@.skip(i as int + 1));
            }
            cur.push(b);
            proof {
                assert(cur@ =~= cur_before + seq![b]);
            }
        }
        i = i + 1;
    }
    proof {
        assert(cur@ + line@.skip(i as int) =~= cur@);
        lemma_split_whole(cur@);
    }
    let ghost old_fields = fields@;
    let ghost cur_view = cur@;
    fields.push(cur);
    proof {
        assert(fields_view(fields@) =~= fields_view(old_fields) + seq![cur_view]);
    }
    fields
}

// ---------------------------------------------------------------------------
// The address index
// ---------------------------------------------------------------------------

/// The entry views of the index's backing vector.
pub open spec fn entries_view(es: Seq<(Vec<u8>, Vec<u64>)>) -> Seq<(Seq<u8>, Seq<u64>)> {
    es.map_values(|e: (Vec<u8>, Vec<u64>)| (e.0@, e.1@))
}

/// The map that a list of entries stands for: later entries win, though a
/// well-formed index never repeats a key.
pub open spec fn index_map(es: Seq<(Seq<u8>, Seq<u64>)>) -> Map<Seq<u8>, Seq<u64>>
    decreases es.len(),
{
    if es.len() == 0 {
        Map::empty()
    } else {
        index_map(es.drop_last()).insert(es.last().0, es.last().1)
    }
}

proof fn lemma_index_map_contains(es: Seq<(Seq<u8>, Seq<u64>)>, a: Seq<u8>)
    ensures
        index_map(es).contains_key(a) <==> exists|i: int| 0 <= i < es.len() && es[i].0 == a,
    decreases es.len(),
{
    if es.len() > 0 {
        lemma_index_map_contains(es.drop_last(), a);
        if es.last().0 == a {
            assert(es[es.len() - 1].0 == a);
        } else if index_map(es).contains_key(a) {
            let i = choose|i: int| 0 <= i < es.drop_last().len() && es.drop_last()[i].0 == a;
            assert(es[i].0 == a);
        } else {
            assert forall|i: int| 0 <= i < es.len() implies es[i].0 != a by {
                if i < es.len() - 1 {
                    assert(es.drop_last()[i] == es[i]);
                }
            }
        }
    }
}

proof fn lemma_index_map_at(es: Seq<(Seq<u8>, Seq<u64>)>, i: int)
    requires
        0 <= i < es.len(),
        forall|p: int, q: int|
            0 <= p < q < es.len() ==> (#[trigger] es[p]).0 != (#[trigger] es[q]).0,
    ensures
        index_map(es).contains_key(es[i].0),
        index_map(es)[es[i].0] == es[i].1,
    decreases es.len(),
{
    if i == es.len() - 1 {
    } else {
        assert(es.drop_last()[i] == es[i]);
        lemma_index_map_at(es.drop_last(), i);
        assert(es[i].0 != es.last().0);
    }
}

proof fn lemma_index_map_update(es: Seq<(Seq<u8>, Seq<u64>)>, i: int, w: Seq<u64>)
    requires
        0 <= i < es.len(),
        forall|p: int, q: int|
            0 <= p < q < es.len() ==> (#[trigger] es[p]).0 != (#[trigger] es[q]).0,
    ensures
        index_map(es.update(i, (es[i].0, w))) == index_map(es).insert(es[i].0, w),
    decreases es.len(),
{
    let es2 = es.update(i, (es[i].0, w));
    if i == es.len() - 1 {
        assert(es2.drop_last() =~= es.drop_last());
        assert(index_map(es2) =~= index_map(es).insert(es[i].0, w));
    } else {
        assert(es2.drop_last() =~= es.drop_last().update(i, (es[i].0, w)));
        assert(es.drop_last()[i] == es[i]);
        lemma_index_map_update(es.drop_last(), i, w);
        assert(es[i].0 != es.last().0);
        assert(index_map(es2) =~= index_map(es).insert(es[i].0, w));
    }
}

/// A map from payment address to the CSV line numbers that carry it,
/// grouped as the loader meets them.
pub struct AddressIndex {
    entries: Vec<(Vec<u8>, Vec<u64>)>,
}

impl AddressIndex {
    /// The entries behind the index, in first-seen order.
    pub closed spec fn entries_spec(self) -> Seq<(Seq<u8>, Seq<u64>)> {
        entries_view(self.entries@)
    }

    /// Each address owns at most one entry.
    pub open spec fn wf(self) -> bool {
        forall|p: int, q: int|
            0 <= p < q < self.entries_spec().len() ==> (#[trigger] self.entries_spec()[p]).0 != (
            #[trigger] self.entries_spec()[q]).0
    }

    /// The map this index stands for.
    pub open spec fn view(self) -> Map<Seq<u8>, Seq<u64>> {
        index_map(self.entries_spec())
    }

    /// How adding one line number under an address changes the map.
    pub open spec fn added(m: Map<Seq<u8>, Seq<u64>>, a: Seq<u8>, line_num: u64) -> Map<
        Seq<u8>,
        Seq<u64>,
    > {
        m.insert(
            a,
            if m.contains_key(a) {
                m[a].push(line_num)
            } else {
                seq![line_num]
            },
        )
    }

    /// An index holding nothing.
    pub fn new() -> (r: AddressIndex)
        ensures
            r.wf(),
            r@ == Map::<Seq<u8>, Seq<u64>>::empty(),
    {
        AddressIndex { entries: Vec::new() }
    }

    /// Records one line number under an address: appended to the address's
    /// entry when one exists, opening a new entry otherwise.
    pub fn add(&mut self, address: &Vec<u8>, line_num: u64)
        requires
            old(self).wf(),
        ensures
            final(self).wf(),
            final(self)@ == Self::added(old(self)@, address@, line_num),
    {
        let ghost es = self.entries_spec();
        let mut i: usize = 0;
        while i < self.entries.len()
            invariant
                0 <= i <= self.entries@.len(),
                self.entries@ == old(self).entries@,
                es == entries_view(self.entries@),
                forall|p: int, q: int|
                    0 <= p < q < es.len() ==> (#[trigger] es[p]).0 != (#[trigger] es[q]).0,
                forall|j: int| 0 <= j < i ==> es[j].0 != address@,
            decreases self.entries@.len() - i,
        {
            if bytes_eq(&self.entries[i].0, address) {
                proof {
                    lemma_index_map_at(es, i as int);
                    lemma_index_map_update(es, i as int, es[i as int].1.push(line_num));
                }
                let mut pair = self.entries.remove(i);
                pair.1.push(line_num);
                let ghost new_pair = (pair.0@, pair.1@);
                self.entries.insert(i, pair);
                proof {
                    assert(entries_view(self.entries@) =~= es.update(i as int, new_pair));
                    assert(es.update(i as int, new_pair) =~= es.update(
                        i as int,
                        (es[i as int].0, es[i as int].1.push(line_num)),
                    ));
                }
                return ;
            }
            i = i + 1;
        }
        proof {
            lemma_index_map_contains(es, address@);
        }
        let mut lines: Vec<u64> = Vec::new();
        lines.push(line_num);
        let ghost new_pair = ((address@, lines@));
        self.entries.push((address.clone(), lines));
        proof {
            assert(entries_view(self.entries@) =~= es.push(new_pair));
            assert(es.push(new_pair).drop_last() =~= es);
            assert(lines@ =~= seq![line_num]);
        }
    }

    /// Looks an address up.
    pub fn get(&self, address: &Vec<u8>) -> (r: Option<&Vec<u64>>)
        requires
            self.wf(),
        ensures
            match r {
                Some(v) => self@.contains_key(address@) && v@ == self@[address@],
                None => !self@.contains_key(address@),
            },
    {
        let ghost es = self.entries_spec();
        let mut i: usize = 0;
        while i < self.entries.len()
            invariant
                0 <= i <= self.entries@.len(),
                es == entries_view(self.entries@),
                forall|p: int, q: int|
                    0 <= p < q < es.len() ==> (#[trigger] es[p]).0 != (#[trigger] es[q]).0,
                forall|j: int| 0 <= j < i ==> es[j].0 != address@,
            decreases self.entries@.len() - i,
        {
            if bytes_eq(&self.entries[i].0, address) {
                proof {
                    lemma_index_map_at(es, i as int);
                }
                return Some(&self.entries[i].1);
            }
            i = i + 1;
        }
        proof {
            lemma_index_map_contains(es, address@);
        }
        None
    }

    /// How many distinct addresses the index holds.
    pub fn len(&self) -> (r: usize)
        ensures
            r == self.entries_spec().len(),
    {
        self.entries.len()
    }
}

/// Byte-string equality.
pub fn bytes_eq(a: &Vec<u8>, b: &Vec<u8>) -> (r: bool)
    ensures
        r == (a@ == b@),
{
    if a.len() != b.len() {
        return false;
    }
    let mut i: usize = 0;
    while i < a.len()
        invariant
            0 <= i <= a@.len(),
            a@.len() == b@.len(),
            forall|j: int| 0 <= j < i ==> a@[j] == b@[j],
        decreases a@.len() - i,
    {
        if a[i] != b[i] {
            return false;
        }
        i = i + 1;
    }
    proof {
        assert(a@ =~= b@);
    }
    true
}

// ---------------------------------------------------------------------------
// Loading a rendered CSV file
// ---------------------------------------------------------------------------

/// The index over the first `n` lines: every data line's fourth field is an
/// address, recorded under its line number; the header line is skipped.
pub open spec fn csv_index(ls: Seq<Seq<u8>>, n: int) -> Map<Seq<u8>, Seq<u64>>
    decreases n,
{
    if n <= 1 {
        Map::empty()
    } else {
        AddressIndex::added(csv_index(ls, n - 1), split_commas(ls[n - 1])[3], (n - 1) as u64)
    }
}

/// Groups the data lines of a rendered CSV file by their address field:
/// each address maps to the numbers of the lines that carry it, in order.
/// The first line is the header and is skipped.
pub fn load(lines: &Vec<Vec<u8>>) -> (r: AddressIndex)
    requires
        forall|i: int| 1 <= i < lines@.len() ==> split_commas(lines@[i]@).len() >= 4,
        lines@.len() <= u64::MAX,
    ensures
        r.wf(),
        r@ == csv_index(fields_view(lines@), lines@.len() as int),
{
    let mut index = AddressIndex::new();
    let mut i: usize = 1;
    while i < lines.len()
        invariant
            1 <= i <= lines@.len() || (lines@.len() < 1 && i == 1),
            lines@.len() <= u64::MAX,
            forall|k: int| 1 <= k < lines@.len() ==> split_commas(lines@[k]@).len() >= 4,
            index.wf(),
            index@ == csv_index(fields_view(lines@), i as int),
        decreases lines@.len() - i,
    {
        let fields = csv_fields(&lines[i]);
        let address = &fields[3];
        proof {
            assert(fields_view(fields@)[3] == split_commas(lines@[i as int]@)[3]);
            assert(fields_view(lines@)[i as int] == lines@[i as int]@);
        }
        index.add(address, i as u64);
        i = i + 1;
    }
    index
}

} // verus!
