//! The immutable Catalog: protected resources, their columns, and the
//! case-insensitive names by which statements reach them.
use vstd::prelude::*;
use crate::identity::{ColumnId, ColumnName, ResourceId, ResourceName, SnapshotId, ValueDescriptor};
use crate::text::{lex_lt, lemma_lex_lt_irreflexive, lower_text, to_ascii_lowercase};
use crate::text_map::{TextMap, entries_get, entries_have_key, key_index, keys_ascending, lemma_entries_get_at};

verus! {

#[derive(Debug, PartialEq, Eq)]
pub struct ColumnDescriptor {
    pub id: ColumnId,
    pub name: ColumnName,
    pub value: ValueDescriptor,
}

/// Case-insensitive lookup key of a name, as the Catalog files it.
pub open spec fn catalog_key(name: Seq<char>) -> Seq<char> {
    lower_text(name)
}

fn canonical(value: &str) -> (r: String)
    ensures
        r@ == catalog_key(value@),
{
    to_ascii_lowercase(value)
}

/// Whether position `i` repeats a key that stands earlier in `keys`.
pub open spec fn repeats_earlier(keys: Seq<Seq<char>>, i: int) -> bool {
    exists|j: int| 0 <= j < i && keys[j] == #[trigger] keys[i]
}

/// Whether some position of `keys` below `bound` repeats an earlier key.
pub open spec fn has_repeat_before(keys: Seq<Seq<char>>, bound: int) -> bool {
    exists|i: int| 0 <= i < bound && i < keys.len() && repeats_earlier(keys, i)
}

/// The first position of `keys` that repeats an earlier key.
pub open spec fn first_repeat(keys: Seq<Seq<char>>) -> int {
    choose|i: int|
        0 <= i < keys.len() && repeats_earlier(keys, i) && forall|k: int|
            0 <= k < i ==> !repeats_earlier(keys, k)
}

/// Ordinals of columns are `u32`: one past the largest ordinal.
pub open spec fn ordinal_bound() -> int {
    u32::MAX as int + 1
}

/// Whether a list of column names (by key) can form a resource.
pub open spec fn column_list_ok(keys: Seq<Seq<char>>) -> bool {
    !has_repeat_before(keys, ordinal_bound()) && keys.len() <= ordinal_bound() && keys.len() > 0
}

/// Whether `e` is the refusal that a list of column names (by key) earns:
/// the first repeated key, else too many columns, else no column.
pub open spec fn column_list_error(e: CatalogError, keys: Seq<Seq<char>>) -> bool {
    match e {
        CatalogError::DuplicateColumn(k) => has_repeat_before(keys, ordinal_bound()) && k@
            == keys[first_repeat(keys)],
        CatalogError::TooManyColumns => !has_repeat_before(keys, ordinal_bound()) && keys.len()
            > ordinal_bound(),
        CatalogError::EmptyResource => !has_repeat_before(keys, ordinal_bound()) && keys.len()
            == 0,
        _ => false,
    }
}

/// The lookup keys of a list of named columns.
pub open spec fn column_keys(columns: Seq<(ColumnName, ValueDescriptor)>) -> Seq<Seq<char>> {
    columns.map_values(|c: (ColumnName, ValueDescriptor)| catalog_key(c.0@))
}

proof fn lemma_take_one_more(keys: Seq<Seq<char>>, i: int, k: Seq<char>)
    requires
        0 <= i < keys.len(),
    ensures
        keys.take(i + 1).contains(k) == (keys.take(i).contains(k) || k == keys[i]),
{
    if keys.take(i).contains(k) {
        let j = choose|j: int| 0 <= j < keys.take(i).len() && #[trigger] keys.take(i)[j] == k;
        assert(keys.take(i + 1)[j] == k);
    }
    if k == keys[i] {
        assert(keys.take(i + 1)[i] == k);
    }
    if keys.take(i + 1).contains(k) {
        let j = choose|j: int| 0 <= j < keys.take(i + 1).len() && #[trigger] keys.take(i + 1)[j] == k;
        if j < i {
            assert(keys.take(i)[j] == k);
        }
    }
}

/// Membership in a prefix that grows by one position.
pub proof fn lemma_take_one_more_text(keys: Seq<Seq<char>>, i: int, k: Seq<char>)
    requires
        0 <= i < keys.len(),
    ensures
        keys.take(i + 1).contains(k) == (keys.take(i).contains(k) || k == keys[i]),
{
    lemma_take_one_more(keys, i, k);
}

/// If some position repeats an earlier key, there is a first such position.
proof fn lemma_first_repeat(keys: Seq<Seq<char>>, i: int)
    requires
        0 <= i < keys.len(),
        repeats_earlier(keys, i),
    ensures
        0 <= first_repeat(keys) <= i,
        repeats_earlier(keys, first_repeat(keys)),
        forall|k: int| 0 <= k < first_repeat(keys) ==> !repeats_earlier(keys, k),
    decreases i,
{
    if exists|k: int| 0 <= k < i && repeats_earlier(keys, k) {
        let k = choose|k: int| 0 <= k < i && repeats_earlier(keys, k);
        lemma_first_repeat(keys, k);
    } else {
        assert(forall|k: int| 0 <= k < i ==> !repeats_earlier(keys, k));
    }
}

#[derive(Debug, PartialEq, Eq)]
pub struct ResourceDescriptor {
    pub id: ResourceId,
    pub name: ResourceName,
    pub source: ResourceName,
    columns: TextMap<ColumnDescriptor>,
}

impl ResourceDescriptor {
    pub closed spec fn id_spec(&self) -> ResourceId {
        self.id
    }

    /// The resource's stable identity.
    pub fn id(&self) -> (r: ResourceId)
        ensures
            r == self.id_spec(),
    {
        self.id
    }

    pub closed spec fn name_spec(&self) -> ResourceName {
        self.name
    }

    pub closed spec fn source_spec(&self) -> ResourceName {
        self.source
    }

    /// The columns, in ascending order of lookup key.
    pub closed spec fn column_entries(&self) -> Seq<(Seq<char>, ColumnDescriptor)> {
        self.columns.entries()
    }

    /// The column filed under lookup key `k`.
    pub closed spec fn column_spec(&self, k: Seq<char>) -> Option<ColumnDescriptor> {
        self.columns.spec_get(k)
    }

    /// Well-formed: keys ascend, each key is the lookup key of its column's
    /// name, and there is at least one column.
    pub closed spec fn wf(&self) -> bool {
        &&& self.columns.wf()
        &&& self.columns.entries().len() > 0
        &&& forall|i: int|
            0 <= i < self.columns.entries().len() ==> #[trigger] self.columns.entries()[i].0
                == catalog_key(self.columns.entries()[i].1.name@)
    }

    /// Creates a resource whose physical table has its logical name, and
    /// rejects case-colliding columns.
    pub fn new(id: ResourceId, name: ResourceName, columns: Vec<(ColumnName, ValueDescriptor)>) -> (r:
        Result<Self, CatalogError>)
        ensures
            column_list_ok(column_keys(columns@)) ==> (r matches Ok(d) && d.id_spec() == id && d.name_spec()@ == name@ && d.source_spec()@ == name@
                && d.describes(id, columns@)),
            !column_list_ok(column_keys(columns@)) ==> (r matches Err(e) && column_list_error(
                e,
                column_keys(columns@),
            )),
    {
        let source = name.clone();
        Self::new_with_source(id, name, source, columns)
    }

    /// The resource holds exactly `columns`: each under its lookup key, with
    /// its position as ordinal, and nothing else.
    pub open spec fn describes(&self, id: ResourceId, columns: Seq<(ColumnName, ValueDescriptor)>) -> bool {
        &&& self.wf()
        &&& columns.len() <= ordinal_bound()
        &&& self.column_entries().len() == columns.len()
        &&& forall|k: Seq<char>| #[trigger]
            self.column_spec(k) is Some == column_keys(columns).contains(k)
        &&& forall|i: int|
            0 <= i < columns.len() ==> #[trigger] self.column_spec(column_keys(columns)[i])
                == Some(
                ColumnDescriptor {
                    id: ColumnId::spec_new(id, i as u32),
                    name: columns[i].0,
                    value: columns[i].1,
                },
            )
    }

    /// Creates a resource whose logical name differs from its physical table.
    pub fn new_with_source(
        id: ResourceId,
        name: ResourceName,
        source: ResourceName,
        columns: Vec<(ColumnName, ValueDescriptor)>,
    ) -> (r: Result<Self, CatalogError>)
        ensures
            column_list_ok(column_keys(columns@)) ==> (r matches Ok(d) && d.id_spec() == id && d.name_spec() == name && d.source_spec() == source
                && d.describes(id, columns@)),
            !column_list_ok(column_keys(columns@)) ==> (r matches Err(e) && column_list_error(
                e,
                column_keys(columns@),
            )),
    {
        let ghost input = columns@;
        let ghost keys = column_keys(input);
        let mut pending = columns;
        let mut resolved: TextMap<ColumnDescriptor> = TextMap::new();
        let mut ordinal: usize = 0;
        let total = pending.len();
        while pending.len() > 0
            invariant
                total == input.len(),
                input == columns@,
                keys == column_keys(input),
                ordinal + pending@.len() == total,
                pending@ =~= input.skip(ordinal as int),
                ordinal <= ordinal_bound(),
                resolved.wf(),
                resolved.entries().len() == ordinal,
                !has_repeat_before(keys, ordinal as int),
                forall|k: Seq<char>| #[trigger]
                    resolved.has_key(k) == keys.take(ordinal as int).contains(k),
                forall|i: int|
                    0 <= i < ordinal ==> #[trigger] resolved.spec_get(keys[i]) == Some(
                        ColumnDescriptor {
                            id: ColumnId::spec_new(id, i as u32),
                            name: input[i].0,
                            value: input[i].1,
                        },
                    ),
                forall|i: int|
                    0 <= i < resolved.entries().len() ==> #[trigger] resolved.entries()[i].0
                        == catalog_key(resolved.entries()[i].1.name@),
            decreases pending.len(),
        {
            let (column_name, value) = pending.remove(0);
            assert(input[ordinal as int] == (column_name, value));
            let key = canonical(column_name.as_str());
            assert(key@ == keys[ordinal as int]);
            if ordinal > 4294967295usize {
                assert(!has_repeat_before(keys, ordinal_bound())) by {
                    assert(ordinal == ordinal_bound());
                }
                return Err(CatalogError::TooManyColumns);
            }
            let column_ordinal = ordinal as u32;
            let descriptor = ColumnDescriptor {
                id: ColumnId::new(id, column_ordinal),
                name: column_name,
                value,
            };
            let ghost before = resolved;
            let ghost descriptor_view = descriptor;
            let error_key = key.clone();
            let replaced = resolved.insert(key, descriptor);
            if replaced.is_some() {
                proof {
                    let i = ordinal as int;
                    assert(keys.take(i).contains(keys[i]));
                    let j = choose|j: int| 0 <= j < i && keys.take(i)[j] == keys[i];
                    assert(keys[j] == keys[i]);
                    assert(repeats_earlier(keys, i));
                    lemma_first_repeat(keys, i);
                    assert(has_repeat_before(keys, i + 1));
                    if first_repeat(keys) < i {
                        assert(has_repeat_before(keys, i));
                    }
                    assert(first_repeat(keys) == i);
                    assert(i < ordinal_bound());
                    assert(has_repeat_before(keys, ordinal_bound()));
                    assert(error_key@ == keys[first_repeat(keys)]);
                    assert(!column_list_ok(keys));
                    assert(column_list_error(CatalogError::DuplicateColumn(error_key), keys));
                }
                return Err(CatalogError::DuplicateColumn(error_key));
            }
            proof {
                let i = ordinal as int;
                assert(!repeats_earlier(keys, i)) by {
                    if repeats_earlier(keys, i) {
                        let j = choose|j: int| 0 <= j < i && keys[j] == #[trigger] keys[i];
                        assert(keys.take(i)[j] == keys[i]);
                        assert(keys.take(i).contains(keys[i]));
                    }
                }
                assert(!has_repeat_before(keys, i + 1));
                assert forall|k: Seq<char>| #[trigger] resolved.has_key(k) == keys.take(
                    i + 1,
                ).contains(k) by {
                    lemma_take_one_more(keys, i, k);
                }
                assert forall|m: int| 0 <= m < i + 1 implies #[trigger] resolved.spec_get(keys[m])
                    == Some(
                    ColumnDescriptor {
                        id: ColumnId::spec_new(id, m as u32),
                        name: input[m].0,
                        value: input[m].1,
                    },
                ) by {
                    if m < i {
                        assert(keys.take(i)[m] == keys[m]);
                        if keys[m] == keys[i] {
                            assert(keys.take(i).contains(keys[i]));
                        }
                    }
                }
                assert forall|m: int| 0 <= m < resolved.entries().len() implies #[trigger]
                    resolved.entries()[m].0 == catalog_key(resolved.entries()[m].1.name@) by {
                    let k = resolved.entries()[m].0;
                    resolved.lemma_wf();
                    lemma_entries_get_at(resolved.entries(), m);
                    if k == keys[i] {
                        assert(resolved.spec_get(k) == Some(descriptor_view));
                    } else {
                        assert(before.spec_get(k) == resolved.spec_get(k));
                        let p = crate::text_map::key_index(before.entries(), k);
                        before.lemma_wf();
                        lemma_entries_get_at(before.entries(), p);
                    }
                }
                assert(pending@ =~= input.skip(i + 1));
            }
            ordinal = ordinal + 1;
        }
        assert(keys.take(ordinal as int) =~= keys);
        if resolved.len() == 0 {
            proof {
                if input.len() > 0 {
                    assert(resolved.has_key(keys[0]));
                    assert(resolved.spec_get(keys[0]) is Some);
                    let p = crate::text_map::key_index(resolved.entries(), keys[0]);
                }
            }
            return Err(CatalogError::EmptyResource);
        }
        proof {
            if has_repeat_before(keys, ordinal_bound()) {
                let w = choose|w: int|
                    0 <= w < ordinal_bound() && w < keys.len() && repeats_earlier(keys, w);
                assert(has_repeat_before(keys, ordinal as int));
            }
            let k0 = resolved.entries()[0].0;
            assert(resolved.has_key(k0));
            assert(keys.take(ordinal as int).contains(k0));
            assert(column_list_ok(keys));
            assert forall|k: Seq<char>| #[trigger] resolved.spec_get(k) is Some == keys.contains(
                k,
            ) by {
                assert(resolved.has_key(k) == keys.take(ordinal as int).contains(k));
            }
        }
        let r = ResourceDescriptor { id, name, source, columns: resolved };
        proof {
            assert forall|i: int| 0 <= i < input.len() implies #[trigger] r.column_spec(
                column_keys(input)[i],
            ) == Some(
                ColumnDescriptor {
                    id: ColumnId::spec_new(id, i as u32),
                    name: input[i].0,
                    value: input[i].1,
                },
            ) by {}
        }
        Ok(r)
    }

    /// The column whose name matches `name` without regard to ASCII case.
    pub fn column(&self, name: &str) -> (r: Option<&ColumnDescriptor>)
        requires
            self.wf(),
        ensures
            r == match self.column_spec(catalog_key(name@)) {
                Some(c) => Some(&c),
                None => None::<&ColumnDescriptor>,
            },
            r matches Some(c) ==> catalog_key(c.name@) == catalog_key(name@),
            r is None ==> forall|j: int|
                0 <= j < self.column_entries().len() ==> catalog_key(
                    (#[trigger] self.column_entries()[j]).1.name@,
                ) != catalog_key(name@),
    {
        let key = canonical(name);
        let r = self.columns.get(key.as_str());
        proof {
            self.law_column_listing();
            let es = self.column_entries();
            if r is None {
                assert forall|j: int| 0 <= j < es.len() implies catalog_key((#[trigger] es[j]).1.name@)
                    != catalog_key(name@) by {
                    assert(es[j].0 == catalog_key(es[j].1.name@));
                }
            }
        }
        r
    }

    /// All columns, in ascending order of lookup key.
    pub fn columns(&self) -> (r: Vec<&ColumnDescriptor>)
        ensures
            r@.len() == self.column_entries().len(),
            forall|i: int| 0 <= i < r@.len() ==> *#[trigger] r@[i] == self.column_entries()[i].1,
            self.wf() ==> r@.len() > 0 && forall|i: int, j: int|
                0 <= i < j < r@.len() ==> lex_lt(
                    catalog_key((#[trigger] r@[i]).name@),
                    catalog_key((#[trigger] r@[j]).name@),
                ),
    {
        let mut out: Vec<&ColumnDescriptor> = Vec::new();
        let n = self.columns.len();
        let mut i: usize = 0;
        while i < n
            invariant
                n == self.column_entries().len(),
                i <= n,
                out@.len() == i,
                forall|j: int| 0 <= j < i ==> *#[trigger] out@[j] == self.column_entries()[j].1,
            decreases n - i,
        {
            out.push(self.columns.value_at(i));
            i = i + 1;
        }
        proof {
            if self.wf() {
                self.law_column_listing();
                let es = self.column_entries();
                assert forall|a: int, b: int| 0 <= a < b < out@.len() implies lex_lt(
                    catalog_key((#[trigger] out@[a]).name@),
                    catalog_key((#[trigger] out@[b]).name@),
                ) by {
                    assert(es[a].0 == catalog_key(es[a].1.name@));
                    assert(es[b].0 == catalog_key(es[b].1.name@));
                    assert(lex_lt(es[a].0, es[b].0));
                }
            }
        }
        out
    }

    /// The column with identity `id`, if it belongs to this resource.
    pub fn column_by_id(&self, id: ColumnId) -> (r: Option<&ColumnDescriptor>)
        ensures
            id.resource_spec() != self.id_spec() ==> r is None,
            id.resource_spec() == self.id_spec() ==> match r {
                Some(c) => exists|i: int|
                    0 <= i < self.column_entries().len() && self.column_entries()[i].1 == *c
                        && c.id == id && forall|j: int|
                        0 <= j < i ==> (#[trigger] self.column_entries()[j]).1.id != id,
                None => forall|i: int|
                    0 <= i < self.column_entries().len() ==> (
                    #[trigger] self.column_entries()[i]).1.id != id,
            },
    {
        if id.resource() != self.id {
            return None;
        }
        let n = self.columns.len();
        let mut i: usize = 0;
        while i < n
            invariant
                n == self.column_entries().len(),
                i <= n,
                id.resource_spec() == self.id_spec(),
                forall|j: int| 0 <= j < i ==> (#[trigger] self.column_entries()[j]).1.id != id,
            decreases n - i,
        {
            let column = self.columns.value_at(i);
            if column.id == id {
                return Some(column);
            }
            i = i + 1;
        }
        None
    }
}

/// The descriptor that the `i`-th of `columns` gets in resource `id`.
pub open spec fn column_at(id: ResourceId, columns: Seq<(ColumnName, ValueDescriptor)>, i: int) -> ColumnDescriptor {
    ColumnDescriptor { id: ColumnId::spec_new(id, i as u32), name: columns[i].0, value: columns[i].1 }
}

impl ResourceDescriptor {
    /// A well-formed resource lists its columns in strictly ascending order
    /// of lookup key, each under the lookup key of its own name, at least
    /// one; a lookup by key finds exactly the listed column filed under it.
    pub proof fn law_column_listing(&self)
        requires
            self.wf(),
        ensures
            self.column_entries().len() > 0,
            keys_ascending(self.column_entries()),
            forall|j: int|
                0 <= j < self.column_entries().len() ==> #[trigger] self.column_entries()[j].0 == catalog_key(
                    self.column_entries()[j].1.name@,
                ),
            forall|k: Seq<char>| #[trigger] self.column_spec(k) == entries_get(self.column_entries(), k),
            forall|j: int|
                0 <= j < self.column_entries().len() ==> self.column_spec(#[trigger] self.column_entries()[j].0)
                    == Some(self.column_entries()[j].1),
            forall|k: Seq<char>|
                #![trigger self.column_spec(k)]
                self.column_spec(k) is None <==> forall|j: int|
                    0 <= j < self.column_entries().len() ==> (#[trigger] self.column_entries()[j]).0 != k,
            forall|k: Seq<char>|
                #![trigger self.column_spec(k)]
                self.column_spec(k) is Some ==> catalog_key(self.column_spec(k)->Some_0.name@) == k,
    {
        let es = self.column_entries();
        self.columns.lemma_wf();
        assert forall|j: int| 0 <= j < es.len() implies self.column_spec(#[trigger] es[j].0) == Some(es[j].1) by {
            lemma_entries_get_at(es, j);
        }
        assert forall|k: Seq<char>| self.column_spec(k) is Some implies catalog_key(
            self.column_spec(k)->Some_0.name@,
        ) == k by {
            let j = key_index(es, k);
            lemma_entries_get_at(es, j);
        }
    }

    proof fn lemma_listed_are_inputs(&self, id: ResourceId, columns: Seq<(ColumnName, ValueDescriptor)>)
        requires
            self.describes(id, columns),
        ensures
            forall|j: int|
                0 <= j < self.column_entries().len() ==> exists|i: int|
                    0 <= i < columns.len() && #[trigger] self.column_entries()[j].1 == column_at(id, columns, i),
    {
        let es = self.column_entries();
        let keys = column_keys(columns);
        self.columns.lemma_wf();
        assert forall|j: int| 0 <= j < es.len() implies exists|i: int|
            0 <= i < columns.len() && #[trigger] es[j].1 == column_at(id, columns, i) by {
            let k = es[j].0;
            lemma_entries_get_at(es, j);
            assert(self.column_spec(k) == Some(es[j].1));
            assert(keys.contains(k));
            let i = choose|i: int| 0 <= i < keys.len() && keys[i] == k;
            assert(self.column_spec(keys[i]) == Some(column_at(id, columns, i)));
        }
    }

    proof fn lemma_inputs_listed(&self, id: ResourceId, columns: Seq<(ColumnName, ValueDescriptor)>)
        requires
            self.describes(id, columns),
        ensures
            forall|i: int|
                0 <= i < columns.len() ==> exists|j: int|
                    0 <= j < self.column_entries().len() && self.column_entries()[j].1 == #[trigger] column_at(
                        id,
                        columns,
                        i,
                    ),
    {
        let es = self.column_entries();
        let keys = column_keys(columns);
        self.columns.lemma_wf();
        assert forall|i: int| 0 <= i < columns.len() implies exists|j: int|
            0 <= j < es.len() && es[j].1 == #[trigger] column_at(id, columns, i) by {
            assert(self.column_spec(keys[i]) == Some(column_at(id, columns, i)));
            let j = key_index(es, keys[i]);
            lemma_entries_get_at(es, j);
        }
    }

    proof fn lemma_listed_ids(&self, id: ResourceId, columns: Seq<(ColumnName, ValueDescriptor)>)
        requires
            self.describes(id, columns),
            forall|j: int|
                0 <= j < self.column_entries().len() ==> exists|i: int|
                    0 <= i < columns.len() && #[trigger] self.column_entries()[j].1 == column_at(id, columns, i),
        ensures
            forall|a: int, b: int|
                0 <= a < self.column_entries().len() && 0 <= b < self.column_entries().len()
                    && (#[trigger] self.column_entries()[a]).1.id == (#[trigger] self.column_entries()[b]).1.id
                    ==> a == b,
            forall|j: int|
                0 <= j < self.column_entries().len() ==> (#[trigger] self.column_entries()[j]).1.id.resource_spec()
                    == id && self.column_entries()[j].1.id.ordinal_spec() < columns.len(),
    {
        let es = self.column_entries();
        self.columns.lemma_wf();
        assert forall|j: int| 0 <= j < es.len() implies (#[trigger] es[j]).1.id.resource_spec() == id
            && es[j].1.id.ordinal_spec() < columns.len() by {
            let i = choose|i: int| 0 <= i < columns.len() && #[trigger] es[j].1 == column_at(id, columns, i);
            ColumnId::lemma_spec_new(id, i as u32);
        }
        assert forall|a: int, b: int|
            0 <= a < es.len() && 0 <= b < es.len() && (#[trigger] es[a]).1.id == (#[trigger] es[b]).1.id
            implies a == b by {
            let ia = choose|i: int| 0 <= i < columns.len() && #[trigger] es[a].1 == column_at(id, columns, i);
            let ib = choose|i: int| 0 <= i < columns.len() && #[trigger] es[b].1 == column_at(id, columns, i);
            ColumnId::lemma_spec_new(id, ia as u32);
            ColumnId::lemma_spec_new(id, ib as u32);
            assert(ia == ib);
            assert(es[a].0 == catalog_key(es[a].1.name@));
            assert(es[b].0 == catalog_key(es[b].1.name@));
            assert(es[a].0 == es[b].0);
            if a < b {
                assert(lex_lt(es[a].0, es[b].0));
                lemma_lex_lt_irreflexive(es[a].0);
            } else if b < a {
                assert(lex_lt(es[b].0, es[a].0));
                lemma_lex_lt_irreflexive(es[a].0);
            }
        }
    }

    /// A resource built from `columns` lists each of them exactly once, in
    /// ascending order of lookup key: every listed column is the `i`-th
    /// input with ordinal `i`, every input is listed, no two listed columns
    /// share an identity, and every identity names this resource with an
    /// ordinal below the number of columns.
    pub proof fn law_columns_listed(&self, id: ResourceId, columns: Seq<(ColumnName, ValueDescriptor)>)
        requires
            self.describes(id, columns),
        ensures
            self.column_entries().len() == columns.len(),
            forall|j: int|
                0 <= j < self.column_entries().len() ==> exists|i: int|
                    0 <= i < columns.len() && #[trigger] self.column_entries()[j].1 == column_at(id, columns, i),
            forall|i: int|
                0 <= i < columns.len() ==> exists|j: int|
                    0 <= j < self.column_entries().len() && self.column_entries()[j].1 == #[trigger] column_at(
                        id,
                        columns,
                        i,
                    ),
            forall|a: int, b: int|
                0 <= a < self.column_entries().len() && 0 <= b < self.column_entries().len()
                    && (#[trigger] self.column_entries()[a]).1.id == (#[trigger] self.column_entries()[b]).1.id
                    ==> a == b,
            forall|j: int|
                0 <= j < self.column_entries().len() ==> (#[trigger] self.column_entries()[j]).1.id.resource_spec()
                    == id && self.column_entries()[j].1.id.ordinal_spec() < columns.len(),
    {
        self.lemma_listed_are_inputs(id, columns);
        self.lemma_inputs_listed(id, columns);
        self.lemma_listed_ids(id, columns);
    }
}

/// The lookup keys of a list of resources.
pub open spec fn resource_keys(resources: Seq<ResourceDescriptor>) -> Seq<Seq<char>> {
    resources.map_values(|r: ResourceDescriptor| catalog_key(r.name_spec()@))
}

/// Whether a list of resources (by key) can form a Catalog.
pub open spec fn resource_list_ok(keys: Seq<Seq<char>>) -> bool {
    !has_repeat_before(keys, keys.len() as int) && keys.len() > 0
}

/// Whether `e` is the refusal that a list of resources (by key) earns: the
/// first repeated key, else no resource.
pub open spec fn resource_list_error(e: CatalogError, keys: Seq<Seq<char>>) -> bool {
    match e {
        CatalogError::DuplicateResource(k) => has_repeat_before(keys, keys.len() as int) && k@
            == keys[first_repeat(keys)],
        CatalogError::EmptyCatalog => !has_repeat_before(keys, keys.len() as int) && keys.len()
            == 0,
        _ => false,
    }
}

/// `x` is one of `input`.
pub open spec fn appears(input: Seq<ResourceDescriptor>, x: ResourceDescriptor) -> bool {
    exists|i: int| 0 <= i < input.len() && input[i] == x
}

/// `x` is listed in `es`.
pub open spec fn is_listed(es: Seq<(Seq<char>, ResourceDescriptor)>, x: ResourceDescriptor) -> bool {
    exists|j: int| 0 <= j < es.len() && es[j].1 == x
}

/// Every listed resource is one of `input`.
pub open spec fn listed_from(es: Seq<(Seq<char>, ResourceDescriptor)>, input: Seq<ResourceDescriptor>) -> bool {
    forall|j: int| 0 <= j < es.len() ==> appears(input, #[trigger] es[j].1)
}

/// Every resource of `input` is listed.
pub open spec fn all_listed(es: Seq<(Seq<char>, ResourceDescriptor)>, input: Seq<ResourceDescriptor>) -> bool {
    forall|i: int| 0 <= i < input.len() ==> is_listed(es, #[trigger] input[i])
}

proof fn lemma_resolved_entries(
    resolved: TextMap<ResourceDescriptor>,
    input: Seq<ResourceDescriptor>,
    keys: Seq<Seq<char>>,
)
    requires
        resolved.wf(),
        keys.len() == input.len(),
        forall|k: Seq<char>| #[trigger] resolved.spec_get(k) is Some == keys.contains(k),
        forall|i: int| 0 <= i < input.len() ==> #[trigger] resolved.spec_get(keys[i]) == Some(input[i]),
    ensures
        listed_from(resolved.entries(), input),
        all_listed(resolved.entries(), input),
{
    let es = resolved.entries();
    resolved.lemma_wf();
    assert forall|j: int| 0 <= j < es.len() implies appears(input, #[trigger] es[j].1) by {
        let k = es[j].0;
        lemma_entries_get_at(es, j);
        assert(resolved.spec_get(k) == Some(es[j].1));
        assert(keys.contains(k));
        let w = choose|w: int| 0 <= w < keys.len() && keys[w] == k;
        assert(resolved.spec_get(keys[w]) == Some(input[w]));
        assert(input[w] == es[j].1);
    }
    assert forall|i: int| 0 <= i < input.len() implies is_listed(es, #[trigger] input[i]) by {
        assert(resolved.spec_get(keys[i]) == Some(input[i]));
        assert(entries_have_key(es, keys[i]));
        let w = key_index(es, keys[i]);
        lemma_entries_get_at(es, w);
        assert(es[w].1 == input[i]);
    }
}

#[derive(Debug, PartialEq, Eq)]
pub struct Catalog {
    snapshot: SnapshotId,
    resources: TextMap<ResourceDescriptor>,
}

impl Catalog {
    #[verifier::type_invariant]
    closed spec fn inv(self) -> bool {
        &&& self.resources.wf()
        &&& self.resources.entries().len() > 0
        &&& forall|i: int|
            0 <= i < self.resources.entries().len() ==> #[trigger] self.resources.entries()[i].0
                == catalog_key(self.resources.entries()[i].1.name_spec()@)
        &&& forall|i: int|
            0 <= i < self.resources.entries().len() ==> (
            #[trigger] self.resources.entries()[i]).1.wf()
    }

    pub closed spec fn snapshot_spec(&self) -> SnapshotId {
        self.snapshot
    }

    /// The resources, in ascending order of lookup key.
    pub closed spec fn resource_entries(&self) -> Seq<(Seq<char>, ResourceDescriptor)> {
        self.resources.entries()
    }

    /// The resource filed under lookup key `k`.
    pub closed spec fn resource_spec(&self, k: Seq<char>) -> Option<ResourceDescriptor> {
        self.resources.spec_get(k)
    }

    /// Creates an immutable Catalog and rejects case-colliding resource names.
    pub fn new(snapshot: SnapshotId, resources: Vec<ResourceDescriptor>) -> (r: Result<
        Self,
        CatalogError,
    >)
        requires
            forall|i: int| 0 <= i < resources@.len() ==> (#[trigger] resources@[i]).wf(),
        ensures
            resource_list_ok(resource_keys(resources@)) ==> (r matches Ok(c) && c.snapshot_spec()
                == snapshot && (forall|k: Seq<char>| #[trigger] c.resource_spec(k) is Some
                == resource_keys(resources@).contains(k)) && forall|i: int|
                0 <= i < resources@.len() ==> #[trigger] c.resource_spec(
                    resource_keys(resources@)[i],
                ) == Some(resources@[i])),
            !resource_list_ok(resource_keys(resources@)) ==> (r matches Err(e)
                && resource_list_error(e, resource_keys(resources@))),
            r matches Ok(c) ==> c.resource_entries().len() == resources@.len() && listed_from(
                c.resource_entries(),
                resources@,
            ) && all_listed(c.resource_entries(), resources@),
    {
        let ghost input = resources@;
        let ghost keys = resource_keys(input);
        let mut pending = resources;
        let mut resolved: TextMap<ResourceDescriptor> = TextMap::new();
        let mut count: usize = 0;
        let total = pending.len();
        while pending.len() > 0
            invariant
                total == input.len(),
                input == resources@,
                keys == resource_keys(input),
                count + pending@.len() == total,
                pending@ =~= input.skip(count as int),
                forall|i: int| 0 <= i < input.len() ==> (#[trigger] input[i]).wf(),
                resolved.wf(),
                resolved.entries().len() == count,
                !has_repeat_before(keys, count as int),
                forall|k: Seq<char>| #[trigger]
                    resolved.has_key(k) == keys.take(count as int).contains(k),
                forall|i: int| 0 <= i < count ==> #[trigger] resolved.spec_get(keys[i]) == Some(input[i]),
                forall|i: int|
                    0 <= i < resolved.entries().len() ==> #[trigger] resolved.entries()[i].0
                        == catalog_key(resolved.entries()[i].1.name_spec()@),
                forall|i: int|
                    0 <= i < resolved.entries().len() ==> (#[trigger] resolved.entries()[i]).1.wf(),
            decreases pending.len(),
        {
            let resource = pending.remove(0);
            assert(input[count as int] == resource);
            let key = canonical(resource.name.as_str());
            assert(key@ == keys[count as int]);
            let ghost before = resolved;
            let ghost resource_view = resource;
            let error_key = key.clone();
            let replaced = resolved.insert(key, resource);
            if replaced.is_some() {
                proof {
                    let i = count as int;
                    assert(keys.take(i).contains(keys[i]));
                    let j = choose|j: int| 0 <= j < i && keys.take(i)[j] == keys[i];
                    assert(keys[j] == keys[i]);
                    assert(repeats_earlier(keys, i));
                    lemma_first_repeat(keys, i);
                    if first_repeat(keys) < i {
                        assert(has_repeat_before(keys, i));
                    }
                    assert(has_repeat_before(keys, keys.len() as int));
                }
                return Err(CatalogError::DuplicateResource(error_key));
            }
            proof {
                let i = count as int;
                assert(!repeats_earlier(keys, i)) by {
                    if repeats_earlier(keys, i) {
                        let j = choose|j: int| 0 <= j < i && keys[j] == #[trigger] keys[i];
                        assert(keys.take(i)[j] == keys[i]);
                        assert(keys.take(i).contains(keys[i]));
                    }
                }
                assert(!has_repeat_before(keys, i + 1));
                assert forall|k: Seq<char>| #[trigger] resolved.has_key(k) == keys.take(
                    i + 1,
                ).contains(k) by {
                    lemma_take_one_more(keys, i, k);
                }
                assert forall|m: int| 0 <= m < i + 1 implies #[trigger] resolved.spec_get(keys[m])
                    == Some(input[m]) by {
                    if m < i {
                        assert(keys.take(i)[m] == keys[m]);
                        if keys[m] == keys[i] {
                            assert(keys.take(i).contains(keys[i]));
                        }
                    }
                }
                assert forall|m: int| 0 <= m < resolved.entries().len() implies (#[trigger]
                    resolved.entries()[m]).0 == catalog_key(resolved.entries()[m].1.name_spec()@)
                    && resolved.entries()[m].1.wf() by {
                    let k = resolved.entries()[m].0;
                    resolved.lemma_wf();
                    lemma_entries_get_at(resolved.entries(), m);
                    if k == keys[i] {
                        assert(resolved.spec_get(k) == Some(resource_view));
                        assert(input[i].wf());
                    } else {
                        assert(before.spec_get(k) == resolved.spec_get(k));
                        let p = crate::text_map::key_index(before.entries(), k);
                        before.lemma_wf();
                        lemma_entries_get_at(before.entries(), p);
                        assert(before.entries()[p].1.wf());
                        assert(before.entries()[p].0 == catalog_key(
                            before.entries()[p].1.name_spec()@,
                        ));
                    }
                }
                assert(pending@ =~= input.skip(i + 1));
            }
            count = count + 1;
        }
        assert(keys.take(count as int) =~= keys);
        if resolved.len() == 0 {
            proof {
                if input.len() > 0 {
                    assert(resolved.has_key(keys[0]));
                    assert(resolved.spec_get(keys[0]) is Some);
                    let p = crate::text_map::key_index(resolved.entries(), keys[0]);
                }
            }
            return Err(CatalogError::EmptyCatalog);
        }
        proof {
            let k0 = resolved.entries()[0].0;
            assert(resolved.has_key(k0));
            assert(keys.take(count as int).contains(k0));
            assert(resource_list_ok(keys));
            assert forall|k: Seq<char>| #[trigger] resolved.spec_get(k) is Some == keys.contains(
                k,
            ) by {
                assert(resolved.has_key(k) == keys.take(count as int).contains(k));
            }
            assert forall|i: int| 0 <= i < input.len() implies #[trigger] resolved.spec_get(keys[i])
                == Some(input[i]) by {}
            lemma_resolved_entries(resolved, input, keys);
        }
        Ok(Catalog { snapshot, resources: resolved })
    }

    pub fn snapshot(&self) -> (r: &SnapshotId)
        ensures
            *r == self.snapshot_spec(),
    {
        &self.snapshot
    }

    /// The resource whose name matches `name` without regard to ASCII case.
    pub fn resource(&self, name: &str) -> (r: Option<&ResourceDescriptor>)
        ensures
            r == match self.resource_spec(catalog_key(name@)) {
                Some(d) => Some(&d),
                None => None::<&ResourceDescriptor>,
            },
            r matches Some(d) ==> d.wf() && catalog_key(d.name_spec()@) == catalog_key(name@),
            r is None ==> forall|i: int|
                0 <= i < self.resource_entries().len() ==> catalog_key(
                    (#[trigger] self.resource_entries()[i]).1.name_spec()@,
                ) != catalog_key(name@),
    {
        proof {
            use_type_invariant(self);
        }
        let key = canonical(name);
        let r = self.resources.get(key.as_str());
        proof {
            let es = self.resources.entries();
            self.resources.lemma_wf();
            if r is Some {
                let p = crate::text_map::key_index(es, catalog_key(name@));
                lemma_entries_get_at(es, p);
            } else {
                assert forall|i: int| 0 <= i < es.len() implies catalog_key((#[trigger] es[i]).1.name_spec()@)
                    != catalog_key(name@) by {
                    if es[i].0 == catalog_key(name@) {
                        assert(entries_have_key(es, catalog_key(name@)));
                    }
                }
            }
        }
        r
    }

    /// All resources, in ascending order of lookup key.
    pub fn resources(&self) -> (r: Vec<&ResourceDescriptor>)
        ensures
            r@.len() == self.resource_entries().len(),
            forall|i: int|
                0 <= i < r@.len() ==> *#[trigger] r@[i] == self.resource_entries()[i].1,
            r@.len() > 0,
            forall|i: int, j: int|
                0 <= i < j < r@.len() ==> lex_lt(
                    catalog_key((#[trigger] r@[i]).name_spec()@),
                    catalog_key((#[trigger] r@[j]).name_spec()@),
                ),
            forall|i: int|
                0 <= i < r@.len() ==> (#[trigger] r@[i]).wf() && self.resource_spec(catalog_key(r@[i].name_spec()@))
                    == Some(*r@[i]),
    {
        proof {
            use_type_invariant(self);
            let es = self.resources.entries();
            self.resources.lemma_wf();
            assert forall|i: int| 0 <= i < es.len() implies self.resource_spec(
                catalog_key((#[trigger] es[i]).1.name_spec()@),
            ) == Some(es[i].1) by {
                lemma_entries_get_at(es, i);
            }
        }
        let mut out: Vec<&ResourceDescriptor> = Vec::new();
        let n = self.resources.len();
        let mut i: usize = 0;
        while i < n
            invariant
                n == self.resource_entries().len(),
                i <= n,
                out@.len() == i,
                forall|j: int| 0 <= j < i ==> *#[trigger] out@[j] == self.resource_entries()[j].1,
            decreases n - i,
        {
            out.push(self.resources.value_at(i));
            i = i + 1;
        }
        proof {
            let es = self.resources.entries();
            assert forall|a: int, b: int| 0 <= a < b < out@.len() implies lex_lt(
                catalog_key((#[trigger] out@[a]).name_spec()@),
                catalog_key((#[trigger] out@[b]).name_spec()@),
            ) by {
                assert(es[a].0 == catalog_key(es[a].1.name_spec()@));
                assert(es[b].0 == catalog_key(es[b].1.name_spec()@));
                assert(lex_lt(es[a].0, es[b].0));
            }
        }
        out
    }

    /// The first resource, in ascending key order, whose identity is `id`.
    pub fn resource_by_id(&self, id: ResourceId) -> (r: Option<&ResourceDescriptor>)
        ensures
            match r {
                Some(d) => exists|i: int|
                    0 <= i < self.resource_entries().len() && self.resource_entries()[i].1 == *d
                        && d.id_spec() == id && forall|j: int|
                        0 <= j < i ==> (#[trigger] self.resource_entries()[j]).1.id_spec() != id,
                None => forall|i: int|
                    0 <= i < self.resource_entries().len() ==> (
                    #[trigger] self.resource_entries()[i]).1.id_spec() != id,
            },
            r matches Some(d) ==> d.wf(),
    {
        proof {
            use_type_invariant(self);
        }
        let n = self.resources.len();
        let mut i: usize = 0;
        while i < n
            invariant
                n == self.resource_entries().len(),
                i <= n,
                forall|j: int| 0 <= j < i ==> (#[trigger] self.resource_entries()[j]).1.id_spec() != id,
                forall|j: int|
                    0 <= j < self.resource_entries().len() ==> (
                    #[trigger] self.resource_entries()[j]).1.wf(),
            decreases n - i,
        {
            let resource = self.resources.value_at(i);
            if resource.id == id {
                return Some(resource);
            }
            i = i + 1;
        }
        None
    }
}

/// The first resource of `entries` whose identity is `id`.
pub open spec fn first_resource(entries: Seq<(Seq<char>, ResourceDescriptor)>, id: ResourceId) -> Option<
    ResourceDescriptor,
>
    decreases entries.len(),
{
    if entries.len() == 0 {
        None
    } else if entries[0].1.id_spec() == id {
        Some(entries[0].1)
    } else {
        first_resource(entries.drop_first(), id)
    }
}

/// The first column of `entries` whose identity is `id`.
pub open spec fn first_column(entries: Seq<(Seq<char>, ColumnDescriptor)>, id: ColumnId) -> Option<
    ColumnDescriptor,
>
    decreases entries.len(),
{
    if entries.len() == 0 {
        None
    } else if entries[0].1.id == id {
        Some(entries[0].1)
    } else {
        first_column(entries.drop_first(), id)
    }
}

proof fn lemma_first_resource(entries: Seq<(Seq<char>, ResourceDescriptor)>, id: ResourceId, i: int)
    requires
        0 <= i <= entries.len(),
        forall|j: int| 0 <= j < i ==> (#[trigger] entries[j]).1.id_spec() != id,
    ensures
        first_resource(entries, id) == first_resource(entries.skip(i), id),
    decreases i,
{
    if i > 0 {
        lemma_first_resource(entries.drop_first(), id, i - 1);
        assert(entries.drop_first().skip(i - 1) =~= entries.skip(i));
    } else {
        assert(entries.skip(0) =~= entries);
    }
}

proof fn lemma_first_column(entries: Seq<(Seq<char>, ColumnDescriptor)>, id: ColumnId, i: int)
    requires
        0 <= i <= entries.len(),
        forall|j: int| 0 <= j < i ==> (#[trigger] entries[j]).1.id != id,
    ensures
        first_column(entries, id) == first_column(entries.skip(i), id),
    decreases i,
{
    if i > 0 {
        lemma_first_column(entries.drop_first(), id, i - 1);
        assert(entries.drop_first().skip(i - 1) =~= entries.skip(i));
    } else {
        assert(entries.skip(0) =~= entries);
    }
}

impl Catalog {
    /// The first resource, in ascending key order, whose identity is `id`.
    pub open spec fn resource_with_id(&self, id: ResourceId) -> Option<ResourceDescriptor> {
        first_resource(self.resource_entries(), id)
    }

    /// The column whose identity is `id`: found in the resource that its
    /// identity names.
    pub open spec fn column_with_id(&self, id: ColumnId) -> Option<ColumnDescriptor> {
        match self.resource_with_id(id.resource_spec()) {
            Some(r) => first_column(r.column_entries(), id),
            None => None,
        }
    }

    /// The resource whose identity is `id`.
    pub fn resource_of(&self, id: ResourceId) -> (r: Option<&ResourceDescriptor>)
        ensures
            match self.resource_with_id(id) {
                Some(d) => r matches Some(x) && *x == d,
                None => r is None,
            },
    {
        let r = self.resource_by_id(id);
        proof {
            match r {
                Some(d) => {
                    let i = choose|i: int|
                        0 <= i < self.resource_entries().len() && self.resource_entries()[i].1 == *d
                            && d.id_spec() == id && forall|j: int|
                            0 <= j < i ==> (#[trigger] self.resource_entries()[j]).1.id_spec() != id;
                    lemma_first_resource(self.resource_entries(), id, i);
                },
                None => {
                    lemma_first_resource(self.resource_entries(), id, self.resource_entries().len() as int);
                    assert(self.resource_entries().skip(self.resource_entries().len() as int).len() == 0);
                },
            }
        }
        r
    }

    /// The column whose identity is `id`.
    pub fn column_of(&self, id: ColumnId) -> (r: Option<&ColumnDescriptor>)
        ensures
            match self.column_with_id(id) {
                Some(c) => r matches Some(x) && *x == c,
                None => r is None,
            },
    {
        let resource = match self.resource_of(id.resource()) {
            Some(d) => d,
            None => return None,
        };
        let r = resource.column_by_id(id);
        proof {
            assert(resource.id_spec() == id.resource_spec()) by {
                let entries = self.resource_entries();
                lemma_first_resource_id(entries, id.resource_spec());
            }
            match r {
                Some(c) => {
                    let i = choose|i: int|
                        0 <= i < resource.column_entries().len() && resource.column_entries()[i].1 == *c
                            && c.id == id && forall|j: int|
                            0 <= j < i ==> (#[trigger] resource.column_entries()[j]).1.id != id;
                    lemma_first_column(resource.column_entries(), id, i);
                },
                None => {
                    lemma_first_column(resource.column_entries(), id, resource.column_entries().len() as int);
                    assert(resource.column_entries().skip(resource.column_entries().len() as int).len() == 0);
                },
            }
        }
        r
    }
}

proof fn lemma_first_resource_id(entries: Seq<(Seq<char>, ResourceDescriptor)>, id: ResourceId)
    ensures
        first_resource(entries, id) matches Some(d) ==> d.id_spec() == id,
    decreases entries.len(),
{
    if entries.len() > 0 && entries[0].1.id_spec() != id {
        lemma_first_resource_id(entries.drop_first(), id);
    }
}

/// Why a Catalog or a resource is refused. The spec form names a duplicate
/// by its position; the runtime form carries the duplicate key.
#[derive(Clone, Debug, PartialEq, Eq)]
pub enum CatalogError {
    EmptyCatalog,
    EmptyResource,
    TooManyColumns,
    DuplicateResource(String),
    DuplicateColumn(String),
}

} // verus!
