//! Assembling a daemon: handlers, storage and audit log.

use crate::registry::{ReadHandler, Registry, WriteHandler};
use crate::schema::TableFunctionSchema;
use std::sync::Arc;
use vstd::prelude::*;
use vstd::string::*;

verus! {

/// A daemon that is being put together.
pub struct App<R, W, St, A> {
    registry: Registry<R, W>,
    storage: Option<St>,
    audit: Option<A>,
}

/// What a daemon runs with.
pub struct Parts<R, W, St, A> {
    pub registry: Registry<R, W>,
    pub storage: St,
    pub audit: A,
}

impl<R: ReadHandler, W: WriteHandler, St, A> App<R, W, St, A> {
    /// The handlers that are registered.
    pub closed spec fn handlers(&self) -> Registry<R, W> {
        self.registry
    }

    /// The storage that was chosen.
    pub closed spec fn chosen_storage(&self) -> Option<St> {
        self.storage
    }

    /// The audit log that was chosen.
    pub closed spec fn chosen_audit(&self) -> Option<A> {
        self.audit
    }

    /// No handlers, no storage and no audit log as yet.
    pub fn new() -> (app: Self)
        ensures
            app.handlers().wf(),
            app.handlers()@.reads == Map::<Seq<char>, Arc<R>>::empty(),
            app.handlers()@.writes == Map::<Seq<char>, Arc<W>>::empty(),
            app.chosen_storage() is None,
            app.chosen_audit() is None,
    {
        App { registry: Registry::new(), storage: None, audit: None }
    }

    /// Registers a read handler.
    pub fn register_read(&mut self, handler: Arc<R>)
        requires
            old(self).handlers().wf(),
        ensures
            final(self).handlers().wf(),
            exists|s: TableFunctionSchema| #[trigger]
                call_ensures(R::schema, (&*handler,), s) && final(self).handlers()@ == old(
                    self,
                ).handlers()@.with_read(s.name@, handler),
            final(self).chosen_storage() == old(self).chosen_storage(),
            final(self).chosen_audit() == old(self).chosen_audit(),
    {
        self.registry.register_read(handler);
    }

    /// Registers a write handler.
    pub fn register_write(&mut self, handler: Arc<W>)
        requires
            old(self).handlers().wf(),
        ensures
            final(self).handlers().wf(),
            exists|s: TableFunctionSchema| #[trigger]
                call_ensures(W::schema, (&*handler,), s) && final(self).handlers()@ == old(
                    self,
                ).handlers()@.with_write(s.name@, handler),
            final(self).chosen_storage() == old(self).chosen_storage(),
            final(self).chosen_audit() == old(self).chosen_audit(),
    {
        self.registry.register_write(handler);
    }

    /// Chooses the storage.
    pub fn storage(self, s: St) -> (app: Self)
        ensures
            app.handlers() == self.handlers(),
            app.chosen_storage() == Some(s),
            app.chosen_audit() == self.chosen_audit(),
    {
        App { registry: self.registry, storage: Some(s), audit: self.audit }
    }

    /// Chooses the audit log.
    pub fn audit(self, a: A) -> (app: Self)
        ensures
            app.handlers() == self.handlers(),
            app.chosen_storage() == self.chosen_storage(),
            app.chosen_audit() == Some(a),
    {
        App { registry: self.registry, storage: self.storage, audit: Some(a) }
    }

    /// The handlers that are registered.
    pub fn registry(&self) -> (registry: &Registry<R, W>)
        ensures
            *registry == self.handlers(),
    {
        &self.registry
    }

    /// What the daemon runs with: storage has to be chosen, and `default_audit`
    /// stands in where no audit log was chosen.
    pub fn parts(self, default_audit: A) -> (result: Result<Parts<R, W, St, A>, String>)
        ensures
            match self.chosen_storage() {
                None => result matches Err(m) && m@ == "App::serve_unix requires storage()"@,
                Some(s) => result matches Ok(p) && p.registry == self.handlers() && p.storage == s
                    && p.audit == match self.chosen_audit() {
                    Some(a) => a,
                    None => default_audit,
                },
            },
    {
        let App { registry, storage, audit } = self;
        let storage = match storage {
            Some(s) => s,
            None => {
                return Err("App::serve_unix requires storage()".to_string());
            },
        };
        let audit = match audit {
            Some(a) => a,
            None => default_audit,
        };
        Ok(Parts { registry, storage, audit })
    }
}

impl<R: ReadHandler, W: WriteHandler, St, A> Default for App<R, W, St, A> {
    fn default() -> (app: Self)
        ensures
            app.handlers().wf(),
            app.handlers()@.reads == Map::<Seq<char>, Arc<R>>::empty(),
            app.handlers()@.writes == Map::<Seq<char>, Arc<W>>::empty(),
            app.chosen_storage() is None,
            app.chosen_audit() is None,
    {
        App::new()
    }
}

/// A daemon runs with the storage that was chosen for it last, with the audit log
/// that was chosen or else the default one, and with the handlers that were
/// registered.
pub proof fn law_daemon_runs_with_what_was_chosen<R: ReadHandler, W: WriteHandler, St, A>(
    app: App<R, W, St, A>,
    s: St,
    with_storage: App<R, W, St, A>,
    a: A,
    with_audit: App<R, W, St, A>,
    registry: &Registry<R, W>,
    default_audit: A,
    parts: Result<Parts<R, W, St, A>, String>,
)
    requires
        call_ensures(App::<R, W, St, A>::storage, (app, s), with_storage),
        call_ensures(App::<R, W, St, A>::audit, (with_storage, a), with_audit),
        call_ensures(App::<R, W, St, A>::registry, (&app,), registry),
        call_ensures(App::<R, W, St, A>::parts, (with_audit, default_audit), parts),
    ensures
        parts matches Ok(p) && p.storage == s && p.audit == a && p.registry == *registry,
{
}

/// A daemon without storage cannot run; one without an audit log of its own runs
/// with the default one, and has no handlers but those that were registered.
pub proof fn law_daemon_needs_storage<R: ReadHandler, W: WriteHandler, St, A>(
    app: App<R, W, St, A>,
    default_audit: A,
    parts: Result<Parts<R, W, St, A>, String>,
    s: St,
    with_storage: App<R, W, St, A>,
    run: Result<Parts<R, W, St, A>, String>,
)
    requires
        call_ensures(App::<R, W, St, A>::new, (), app),
        call_ensures(App::<R, W, St, A>::parts, (app, default_audit), parts),
        call_ensures(App::<R, W, St, A>::storage, (app, s), with_storage),
        call_ensures(App::<R, W, St, A>::parts, (with_storage, default_audit), run),
    ensures
        parts matches Err(m) && m@ == "App::serve_unix requires storage()"@,
        run matches Ok(p) && p.storage == s && p.audit == default_audit && p.registry@.reads
            == Map::<Seq<char>, Arc<R>>::empty() && p.registry@.writes == Map::<
            Seq<char>,
            Arc<W>,
        >::empty(),
{
}

/// A handler is registered under the name in its schema, in place of an earlier
/// one, and nothing else changes.
pub proof fn law_registered_handlers_are_found<R: ReadHandler, W: WriteHandler, St, A>(
    app: &mut App<R, W, St, A>,
    handler: Arc<R>,
    other: &mut App<R, W, St, A>,
    writer: Arc<W>,
)
    requires
        call_ensures(App::<R, W, St, A>::register_read, (app, handler), ()),
        call_ensures(App::<R, W, St, A>::register_write, (other, writer), ()),
    ensures
        exists|schema: TableFunctionSchema| #[trigger]
            call_ensures(R::schema, (&*handler,), schema) && final(app).handlers()@.reads == old(
                app,
            ).handlers()@.reads.insert(schema.name@, handler),
        final(app).handlers()@.writes == old(app).handlers()@.writes,
        exists|schema: TableFunctionSchema| #[trigger]
            call_ensures(W::schema, (&*writer,), schema) && final(other).handlers()@.writes == old(
                other,
            ).handlers()@.writes.insert(schema.name@, writer),
        final(other).handlers()@.reads == old(other).handlers()@.reads,
{
}

} // verus!
