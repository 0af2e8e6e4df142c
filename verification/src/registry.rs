//! The registered read and write handlers, by name.

use crate::error::Error;
use crate::keys::{ComputeKey, LockKey};
use crate::name_table::NameTable;
use crate::row::{Inputs, Row};
use crate::schema::TableFunctionSchema;
use crate::sorting::{law_sorted_items, sort_by_text, stably_sorted, Keyed};
use crate::text::comes_before;
use std::sync::Arc;
use vstd::prelude::*;
use vstd::string::*;
use vstd::utf8::*;

verus! {

/// What a read request is dispatched to. Computing the state is left to the
/// one who runs the daemon.
pub trait ReadHandler {
    /// The state that is computed and kept.
    type State: ?Sized;

    fn schema(&self) -> TableFunctionSchema;

    /// The key under which the computed state is kept.
    fn compute_key(&self, inputs: &Inputs) -> Result<ComputeKey, Error>;

    /// The rows of a call, out of the computed state.
    fn project(&self, inputs: &Inputs, state: &Arc<Self::State>) -> Result<Vec<Row>, Error>;
}

/// What a write request is dispatched to. Carrying out the write is left to
/// the one who runs the daemon.
pub trait WriteHandler {
    fn schema(&self) -> TableFunctionSchema;

    /// The key that the write is serialized by.
    fn lock_key(&self, inputs: &Inputs) -> Result<LockKey, Error>;

    /// The key under which the outcome is recorded, if it is to be.
    fn idempotency_key(&self, inputs: &Inputs) -> Option<String>;
}

impl Keyed for TableFunctionSchema {
    open spec fn sort_key(&self) -> Seq<char> {
        self.name@
    }

    fn sort_text(&self) -> (text: &str) {
        self.name.as_str()
    }
}

/// Handlers by the name of their table function.
pub struct Registry<R, W> {
    reads: NameTable<Arc<R>>,
    writes: NameTable<Arc<W>>,
}

/// The handlers by name.
pub struct RegistryView<R, W> {
    pub reads: Map<Seq<char>, Arc<R>>,
    pub writes: Map<Seq<char>, Arc<W>>,
}

impl<R, W> View for Registry<R, W> {
    type V = RegistryView<R, W>;

    closed spec fn view(&self) -> RegistryView<R, W> {
        RegistryView { reads: self.reads@, writes: self.writes@ }
    }
}

/// The handlers are those of the map, each once.
pub open spec fn enumerates<H>(handlers: Seq<Arc<H>>, by_name: Map<Seq<char>, Arc<H>>) -> bool {
    exists|names: Seq<Seq<char>>| #[trigger] names_handlers(names, handlers, by_name)
}

/// The names are those of the map, each once, and the handlers are theirs.
pub open spec fn names_handlers<H>(
    names: Seq<Seq<char>>,
    handlers: Seq<Arc<H>>,
    by_name: Map<Seq<char>, Arc<H>>,
) -> bool {
    &&& names.len() == handlers.len()
    &&& names.no_duplicates()
    &&& forall|i: int| #![trigger names[i]]
        0 <= i < names.len() ==> by_name.contains_key(names[i]) && by_name[names[i]]
            == handlers[i]
    &&& forall|n: Seq<char>| #[trigger] by_name.contains_key(n) ==> names.contains(n)
}

impl<R: ReadHandler, W: WriteHandler> Registry<R, W> {
    /// The tables are well formed.
    pub closed spec fn wf(&self) -> bool {
        self.reads.wf() && self.writes.wf()
    }

    /// No handlers.
    pub fn new() -> (r: Self)
        ensures
            r.wf(),
            r@.reads == Map::<Seq<char>, Arc<R>>::empty(),
            r@.writes == Map::<Seq<char>, Arc<W>>::empty(),
    {
        Registry { reads: NameTable::new(), writes: NameTable::new() }
    }

    /// Puts a read handler under `name`, in place of an earlier one.
    pub fn add_read(&mut self, name: String, handler: Arc<R>)
        requires
            old(self).wf(),
        ensures
            final(self).wf(),
            final(self)@ == old(self)@.with_read(name@, handler),
    {
        self.reads.insert(name, handler);
    }

    /// Puts a write handler under `name`, in place of an earlier one.
    pub fn add_write(&mut self, name: String, handler: Arc<W>)
        requires
            old(self).wf(),
        ensures
            final(self).wf(),
            final(self)@ == old(self)@.with_write(name@, handler),
    {
        self.writes.insert(name, handler);
    }

    /// Registers a read handler under the name in its schema.
    pub fn register_read(&mut self, handler: Arc<R>)
        requires
            old(self).wf(),
        ensures
            final(self).wf(),
            exists|s: TableFunctionSchema| #[trigger]
                call_ensures(R::schema, (&*handler,), s) && final(self)@ == old(self)@.with_read(
                    s.name@,
                    handler,
                ),
    {
        let schema = handler.schema();
        assert(call_ensures(R::schema, (&*handler,), schema));
        self.add_read(schema.name, handler);
    }

    /// Registers a write handler under the name in its schema.
    pub fn register_write(&mut self, handler: Arc<W>)
        requires
            old(self).wf(),
        ensures
            final(self).wf(),
            exists|s: TableFunctionSchema| #[trigger]
                call_ensures(W::schema, (&*handler,), s) && final(self)@ == old(self)@.with_write(
                    s.name@,
                    handler,
                ),
    {
        let schema = handler.schema();
        assert(call_ensures(W::schema, (&*handler,), schema));
        self.add_write(schema.name, handler);
    }

    /// The read handler under `name`.
    pub fn get_read(&self, name: &str) -> (found: Option<Arc<R>>)
        requires
            self.wf(),
        ensures
            found == self@.read(name@),
    {
        match self.reads.get(name) {
            Some(h) => Some(h.clone()),
            None => None,
        }
    }

    /// The write handler under `name`.
    pub fn get_write(&self, name: &str) -> (found: Option<Arc<W>>)
        requires
            self.wf(),
        ensures
            found == self@.write(name@),
    {
        match self.writes.get(name) {
            Some(h) => Some(h.clone()),
            None => None,
        }
    }
}

impl<R: ReadHandler, W: WriteHandler> Registry<R, W> {
    /// The schemas of all handlers in ascending order of their names. Where a
    /// read and a write function have the same name, the read comes first.
    pub fn list_schemas(&self) -> (list: Vec<TableFunctionSchema>)
        requires
            self.wf(),
        ensures
            exists|reads: Seq<Arc<R>>, writes: Seq<Arc<W>>, schemas: Seq<TableFunctionSchema>| #[trigger]
                gives_schemas(reads, writes, schemas) && enumerates(reads, self@.reads)
                    && enumerates(writes, self@.writes) && stably_sorted(schemas, list@),
    {
        let mut schemas: Vec<TableFunctionSchema> = Vec::new();
        let n: usize = self.reads.len();
        let m: usize = self.writes.len();
        let ghost reads = self.reads.pairs().map_values(|p: (Seq<char>, Arc<R>)| p.1);
        let ghost writes = self.writes.pairs().map_values(|p: (Seq<char>, Arc<W>)| p.1);
        let mut i: usize = 0;
        while i < n
            invariant
                i <= n,
                self.wf(),
                n == self.reads.pairs().len(),
                reads == self.reads.pairs().map_values(|p: (Seq<char>, Arc<R>)| p.1),
                schemas@.len() == i,
                forall|a: int| #![trigger schemas@[a]]
                    0 <= a < i ==> call_ensures(R::schema, (&*reads[a],), schemas@[a]),
            decreases n - i,
        {
            let (_, handler) = self.reads.at(i);
            assert(*handler == reads[i as int]);
            let schema = handler.schema();
            assert(call_ensures(R::schema, (&*reads[i as int],), schema));
            schemas.push(schema);
            i += 1;
        }
        let mut j: usize = 0;
        while j < m
            invariant
                j <= m,
                self.wf(),
                n == reads.len(),
                m == self.writes.pairs().len(),
                writes == self.writes.pairs().map_values(|p: (Seq<char>, Arc<W>)| p.1),
                schemas@.len() == n + j,
                forall|a: int| #![trigger schemas@[a]]
                    0 <= a < n ==> call_ensures(R::schema, (&*reads[a],), schemas@[a]),
                forall|a: int| #![trigger schemas@[a]]
                    n <= a < n + j ==> call_ensures(W::schema, (&*writes[a - n],), schemas@[a]),
            decreases m - j,
        {
            let (_, handler) = self.writes.at(j);
            assert(*handler == writes[j as int]);
            let schema = handler.schema();
            assert(call_ensures(W::schema, (&*writes[j as int],), schema));
            schemas.push(schema);
            j += 1;
        }
        proof {
            lemma_pairs_enumerate(&self.reads);
            lemma_pairs_enumerate(&self.writes);
            assert(gives_schemas(reads, writes, schemas@));
        }
        sort_by_text(schemas)
    }
}

proof fn lemma_pairs_enumerate<H>(table: &NameTable<Arc<H>>)
    requires
        table.wf(),
    ensures
        enumerates(table.pairs().map_values(|p: (Seq<char>, Arc<H>)| p.1), table@),
{
    table.lemma_pairs();
    let pairs = table.pairs();
    let handlers = pairs.map_values(|p: (Seq<char>, Arc<H>)| p.1);
    let names = pairs.map_values(|p: (Seq<char>, Arc<H>)| p.0);
    assert forall|i: int, j: int| 0 <= i < names.len() && 0 <= j < names.len() && i != j implies names[i]
        != names[j] by {
        if i < j {
            assert(pairs[i].0 != pairs[j].0);
        } else {
            assert(pairs[j].0 != pairs[i].0);
        }
    }
    assert forall|i: int| #![trigger names[i]] 0 <= i < names.len() implies table@.contains_key(
        names[i],
    ) && table@[names[i]] == handlers[i] by {
        assert(names[i] == pairs[i].0);
    }
    assert forall|n: Seq<char>| #[trigger] table@.contains_key(n) implies names.contains(n) by {
        let i = choose|i: int| 0 <= i < pairs.len() && #[trigger] pairs[i] == (n, table@[n]);
        assert(names[i] == n);
    }
    assert(names_handlers(names, handlers, table@));
}

/// The schemas are those that the handlers give, reads first.
pub open spec fn gives_schemas<R: ReadHandler, W: WriteHandler>(
    reads: Seq<Arc<R>>,
    writes: Seq<Arc<W>>,
    schemas: Seq<TableFunctionSchema>,
) -> bool {
    &&& schemas.len() == reads.len() + writes.len()
    &&& forall|i: int| #![trigger schemas[i]]
        0 <= i < reads.len() ==> call_ensures(R::schema, (&*reads[i],), schemas[i])
    &&& forall|i: int| #![trigger schemas[i]]
        reads.len() <= i < schemas.len() ==> call_ensures(
            W::schema,
            (&*writes[i - reads.len()],),
            schemas[i],
        )
}

impl<R: ReadHandler, W: WriteHandler> Default for Registry<R, W> {
    fn default() -> (r: Self)
        ensures
            r.wf(),
            r@.reads == Map::<Seq<char>, Arc<R>>::empty(),
            r@.writes == Map::<Seq<char>, Arc<W>>::empty(),
    {
        Registry::new()
    }
}

/// A read handler is found under the name that it was put under; the read
/// handlers under other names, and all write handlers, stay as they are.
pub proof fn law_read_registration<R, W>(
    state: RegistryView<R, W>,
    name: Seq<char>,
    handler: Arc<R>,
    other: Seq<char>,
)
    requires
        other != name,
    ensures
        state.with_read(name, handler).read(name) == Some(handler),
        state.with_read(name, handler).read(other) == state.read(other),
        state.with_read(name, handler).writes == state.writes,
{
}

/// A write handler is found under the name that it was put under; the write
/// handlers under other names, and all read handlers, stay as they are.
pub proof fn law_write_registration<R, W>(
    state: RegistryView<R, W>,
    name: Seq<char>,
    handler: Arc<W>,
    other: Seq<char>,
)
    requires
        other != name,
    ensures
        state.with_write(name, handler).write(name) == Some(handler),
        state.with_write(name, handler).write(other) == state.write(other),
        state.with_write(name, handler).reads == state.reads,
{
}

impl<R, W> RegistryView<R, W> {
    /// After a read handler was put under `name`.
    pub open spec fn with_read(self, name: Seq<char>, handler: Arc<R>) -> RegistryView<R, W> {
        RegistryView { reads: self.reads.insert(name, handler), ..self }
    }

    /// After a write handler was put under `name`.
    pub open spec fn with_write(self, name: Seq<char>, handler: Arc<W>) -> RegistryView<R, W> {
        RegistryView { writes: self.writes.insert(name, handler), ..self }
    }

    /// The read handler under `name`.
    pub open spec fn read(self, name: Seq<char>) -> Option<Arc<R>> {
        if self.reads.contains_key(name) {
            Some(self.reads[name])
        } else {
            None
        }
    }

    /// The write handler under `name`.
    pub open spec fn write(self, name: Seq<char>) -> Option<Arc<W>> {
        if self.writes.contains_key(name) {
            Some(self.writes[name])
        } else {
            None
        }
    }
}

/// A read handler that was put under a name is found under it, and no other name
/// and no write handler changes.
pub proof fn law_read_handler_is_found<R: ReadHandler, W: WriteHandler>(
    registry: &mut Registry<R, W>,
    name: String,
    handler: Arc<R>,
    before: &Registry<R, W>,
    after: &Registry<R, W>,
    asked: &str,
    was: Option<Arc<R>>,
    is: Option<Arc<R>>,
    wrote: Option<Arc<W>>,
    writes: Option<Arc<W>>,
)
    requires
        call_ensures(Registry::<R, W>::add_read, (registry, name, handler), ()),
        *before == *old(registry),
        call_ensures(Registry::<R, W>::get_read, (before, asked), was),
        call_ensures(Registry::<R, W>::get_read, (after, asked), is),
        call_ensures(Registry::<R, W>::get_write, (before, asked), wrote),
        call_ensures(Registry::<R, W>::get_write, (after, asked), writes),
    ensures
        *after == *final(registry) ==> {
            &&& asked@ == name@ ==> is == Some(handler)
            &&& asked@ != name@ ==> is == was
            &&& writes == wrote
        },
{
}

/// A write handler that was put under a name is found under it, and no other name
/// and no read handler changes.
pub proof fn law_write_handler_is_found<R: ReadHandler, W: WriteHandler>(
    registry: &mut Registry<R, W>,
    name: String,
    handler: Arc<W>,
    before: &Registry<R, W>,
    after: &Registry<R, W>,
    asked: &str,
    was: Option<Arc<W>>,
    is: Option<Arc<W>>,
    read: Option<Arc<R>>,
    reads: Option<Arc<R>>,
)
    requires
        call_ensures(Registry::<R, W>::add_write, (registry, name, handler), ()),
        *before == *old(registry),
        call_ensures(Registry::<R, W>::get_write, (before, asked), was),
        call_ensures(Registry::<R, W>::get_write, (after, asked), is),
        call_ensures(Registry::<R, W>::get_read, (before, asked), read),
        call_ensures(Registry::<R, W>::get_read, (after, asked), reads),
    ensures
        *after == *final(registry) ==> {
            &&& asked@ == name@ ==> is == Some(handler)
            &&& asked@ != name@ ==> is == was
            &&& reads == read
        },
{
}

/// A handler is registered under the name in its own schema.
pub proof fn law_handlers_are_registered_by_schema<R: ReadHandler, W: WriteHandler>(
    registry: &mut Registry<R, W>,
    handler: Arc<R>,
    after: &Registry<R, W>,
    asked: &str,
    found: Option<Arc<R>>,
    other: &mut Registry<R, W>,
    writer: Arc<W>,
    later: &Registry<R, W>,
    written: Option<Arc<W>>,
)
    requires
        call_ensures(Registry::<R, W>::register_read, (registry, handler), ()),
        call_ensures(Registry::<R, W>::get_read, (after, asked), found),
        call_ensures(Registry::<R, W>::register_write, (other, writer), ()),
        call_ensures(Registry::<R, W>::get_write, (later, asked), written),
    ensures
        *after == *final(registry) ==> exists|s: TableFunctionSchema| #[trigger]
            call_ensures(R::schema, (&*handler,), s) && (asked@ == s.name@ ==> found == Some(
                handler,
            )),
        *later == *final(other) ==> exists|s: TableFunctionSchema| #[trigger]
            call_ensures(W::schema, (&*writer,), s) && (asked@ == s.name@ ==> written == Some(
                writer,
            )),
{
}

/// A new registry knows no name.
pub proof fn law_new_registry_is_empty<R: ReadHandler, W: WriteHandler>(
    registry: Registry<R, W>,
    name: &str,
    read: Option<Arc<R>>,
    write: Option<Arc<W>>,
)
    requires
        call_ensures(Registry::<R, W>::new, (), registry),
        call_ensures(Registry::<R, W>::get_read, (&registry, name), read),
        call_ensures(Registry::<R, W>::get_write, (&registry, name), write),
    ensures
        read is None,
        write is None,
{
}

/// The handler is one of those in the map.
pub open spec fn is_among<H>(handler: Arc<H>, by_name: Map<Seq<char>, Arc<H>>) -> bool {
    exists|n: Seq<char>| #[trigger] by_name.contains_key(n) && by_name[n] == handler
}

/// The schema is one that a read handler in the map gives.
pub open spec fn is_read_schema<R: ReadHandler>(
    schema: TableFunctionSchema,
    by_name: Map<Seq<char>, Arc<R>>,
) -> bool {
    exists|h: Arc<R>| #[trigger] is_among(h, by_name) && call_ensures(R::schema, (&*h,), schema)
}

/// The schema is one that a write handler in the map gives.
pub open spec fn is_write_schema<W: WriteHandler>(
    schema: TableFunctionSchema,
    by_name: Map<Seq<char>, Arc<W>>,
) -> bool {
    exists|h: Arc<W>| #[trigger] is_among(h, by_name) && call_ensures(W::schema, (&*h,), schema)
}

proof fn lemma_enumerated<H>(handlers: Seq<Arc<H>>, by_name: Map<Seq<char>, Arc<H>>)
    requires
        enumerates(handlers, by_name),
    ensures
        by_name.dom().finite(),
        by_name.dom().len() == handlers.len(),
        forall|n: Seq<char>| #[trigger]
            by_name.contains_key(n) ==> handlers.contains(by_name[n]),
        forall|i: int| #![trigger handlers[i]]
            0 <= i < handlers.len() ==> is_among(handlers[i], by_name),
{
    let names = choose|names: Seq<Seq<char>>| #[trigger] names_handlers(names, handlers, by_name);
    assert(names.to_set() =~= by_name.dom()) by {
        assert forall|n: Seq<char>| by_name.dom().contains(n) implies names.to_set().contains(n) by {
            assert(by_name.contains_key(n));
            assert(names.contains(n));
        }
        assert forall|n: Seq<char>| names.to_set().contains(n) implies by_name.dom().contains(n) by {
            let i = choose|i: int| 0 <= i < names.len() && names[i] == n;
            assert(by_name.contains_key(names[i]));
        }
    }
    names.unique_seq_to_set();
    assert forall|n: Seq<char>| #[trigger] by_name.contains_key(n) implies handlers.contains(
        by_name[n],
    ) by {
        assert(names.contains(n));
        let i = choose|i: int| 0 <= i < names.len() && names[i] == n;
        assert(handlers[i] == by_name[names[i]]);
    }
    assert forall|i: int| #![trigger handlers[i]] 0 <= i < handlers.len() implies is_among(
        handlers[i],
        by_name,
    ) by {
        assert(by_name.contains_key(names[i]) && by_name[names[i]] == handlers[i]);
    }
}

/// What it means for a list to be that of the registered handlers.
pub proof fn lemma_schemas_listed<R: ReadHandler, W: WriteHandler>(
    view: RegistryView<R, W>,
    list: Seq<TableFunctionSchema>,
)
    requires
        exists|reads: Seq<Arc<R>>, writes: Seq<Arc<W>>, schemas: Seq<TableFunctionSchema>| #[trigger]
            gives_schemas(reads, writes, schemas) && enumerates(reads, view.reads) && enumerates(
                writes,
                view.writes,
            ) && stably_sorted(schemas, list),
    ensures
        list.len() == view.reads.dom().len() + view.writes.dom().len(),
        forall|n: Seq<char>| #[trigger]
            view.reads.contains_key(n) ==> exists|i: int|
                0 <= i < list.len() && call_ensures(
                    R::schema,
                    (&*view.reads[n],),
                    #[trigger] list[i],
                ),
        forall|n: Seq<char>| #[trigger]
            view.writes.contains_key(n) ==> exists|i: int|
                0 <= i < list.len() && call_ensures(
                    W::schema,
                    (&*view.writes[n],),
                    #[trigger] list[i],
                ),
        forall|i: int| #![trigger list[i]]
            0 <= i < list.len() ==> is_read_schema(list[i], view.reads) || is_write_schema(
                list[i],
                view.writes,
            ),
        forall|i: int, j: int| #![trigger list[i], list[j]]
            0 <= i < j < list.len() ==> !comes_before(
                encode_utf8(list[j].name@),
                encode_utf8(list[i].name@),
            ),
{
    let (reads, writes, schemas) = choose|
        reads: Seq<Arc<R>>,
        writes: Seq<Arc<W>>,
        schemas: Seq<TableFunctionSchema>,
    | #[trigger]
        gives_schemas(reads, writes, schemas) && enumerates(reads, view.reads) && enumerates(
            writes,
            view.writes,
        ) && stably_sorted(schemas, list);
    lemma_enumerated(reads, view.reads);
    lemma_enumerated(writes, view.writes);
    law_sorted_items(schemas, list, Seq::empty());
    assert forall|i: int, j: int| #![trigger list[i], list[j]]
        0 <= i < j < list.len() implies !comes_before(
        encode_utf8(list[j].name@),
        encode_utf8(list[i].name@),
    ) by {
        assert(list[i].sort_key() == list[i].name@ && list[j].sort_key() == list[j].name@);
    }
    assert forall|n: Seq<char>| #[trigger] view.reads.contains_key(n) implies exists|i: int|
        0 <= i < list.len() && call_ensures(
            R::schema,
            (&*view.reads[n],),
            #[trigger] list[i],
        ) by {
        assert(reads.contains(view.reads[n]));
        let a = choose|a: int| 0 <= a < reads.len() && reads[a] == view.reads[n];
        let schema = schemas[a];
        assert(schemas.contains(schema));
        assert(list.contains(schema));
        let i = choose|i: int| 0 <= i < list.len() && list[i] == schema;
        assert(call_ensures(R::schema, (&*view.reads[n],), list[i]));
    }
    assert forall|n: Seq<char>| #[trigger] view.writes.contains_key(n) implies exists|i: int|
        0 <= i < list.len() && call_ensures(
            W::schema,
            (&*view.writes[n],),
            #[trigger] list[i],
        ) by {
        assert(writes.contains(view.writes[n]));
        let a = choose|a: int| 0 <= a < writes.len() && writes[a] == view.writes[n];
        let schema = schemas[reads.len() + a];
        assert(writes[reads.len() + a - reads.len()] == view.writes[n]);
        assert(schemas.contains(schema));
        assert(list.contains(schema));
        let i = choose|i: int| 0 <= i < list.len() && list[i] == schema;
        assert(call_ensures(W::schema, (&*view.writes[n],), list[i]));
    }
    assert forall|i: int| #![trigger list[i]] 0 <= i < list.len() implies is_read_schema(
        list[i],
        view.reads,
    ) || is_write_schema(list[i], view.writes) by {
        assert(list.contains(list[i]));
        assert(schemas.contains(list[i]));
        let a = choose|a: int| 0 <= a < schemas.len() && schemas[a] == list[i];
        let schema = schemas[a];
        if a < reads.len() {
            let h = reads[a];
            assert(is_among(h, view.reads));
        } else {
            let h = writes[a - reads.len()];
            assert(is_among(h, view.writes));
        }
    }
}

/// The list of schemas has one of each handler that is registered, read or write,
/// and no others, in the order of their names.
pub proof fn law_all_schemas_are_listed<R: ReadHandler, W: WriteHandler>(
    registry: &Registry<R, W>,
    list: Vec<TableFunctionSchema>,
)
    requires
        call_ensures(Registry::<R, W>::list_schemas, (registry,), list),
    ensures
        list@.len() == registry@.reads.dom().len() + registry@.writes.dom().len(),
        forall|n: Seq<char>| #[trigger]
            registry@.reads.contains_key(n) ==> exists|i: int|
                0 <= i < list@.len() && call_ensures(
                    R::schema,
                    (&*registry@.reads[n],),
                    #[trigger] list@[i],
                ),
        forall|n: Seq<char>| #[trigger]
            registry@.writes.contains_key(n) ==> exists|i: int|
                0 <= i < list@.len() && call_ensures(
                    W::schema,
                    (&*registry@.writes[n],),
                    #[trigger] list@[i],
                ),
        forall|i: int| #![trigger list@[i]]
            0 <= i < list@.len() ==> is_read_schema(list@[i], registry@.reads) || is_write_schema(
                list@[i],
                registry@.writes,
            ),
        forall|i: int, j: int| #![trigger list@[i], list@[j]]
            0 <= i < j < list@.len() ==> !comes_before(
                encode_utf8(list@[j].name@),
                encode_utf8(list@[i].name@),
            ),
{
    lemma_schemas_listed(registry@, list@);
}

} // verus!
