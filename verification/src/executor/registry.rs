//! Task handler registry.
//!
//! Maps task names (such as "index_document") to the handlers that run
//! them. The handler type is left to the caller: the registry only stores,
//! finds and lists them.

use vstd::prelude::*;

use crate::executor::types::Task;
use crate::keyed::KeyedTable;

verus! {

/// Prefix of the error for a task whose handler is not registered.
pub const UNKNOWN_HANDLER_PREFIX: &'static str = "Unknown task handler: ";

/// The error message for a task naming an unregistered handler.
pub open spec fn unknown_handler_text(name: Seq<char>) -> Seq<char> {
    UNKNOWN_HANDLER_PREFIX@ + name
}

/// Names to handlers.
pub struct TaskHandlerRegistry<H> {
    handlers: KeyedTable<String, H>,
}

impl<H> TaskHandlerRegistry<H> {
    pub closed spec fn wf(&self) -> bool {
        self.handlers.wf()
    }

    /// The registered handlers by name.
    pub closed spec fn registered(&self) -> Map<Seq<char>, H> {
        self.handlers.map()
    }

    /// The registered names, in registration order.
    pub closed spec fn names(&self) -> Seq<Seq<char>> {
        self.handlers.entries().map_values(|e: (String, H)| e.0@)
    }

    /// An empty registry.
    pub fn new() -> (r: Self)
        ensures
            r.wf(),
            r.registered() == Map::<Seq<char>, H>::empty(),
            r.names() == Seq::<Seq<char>>::empty(),
    {
        let r = TaskHandlerRegistry { handlers: KeyedTable::new() };
        proof {
            assert(r.names() =~= Seq::<Seq<char>>::empty());
        }
        r
    }

    /// Registers `handler` under `handler_name`, replacing a handler of the
    /// same name (which keeps its place in the listing).
    pub fn register(&mut self, handler_name: &str, handler: H)
        requires
            old(self).wf(),
        ensures
            final(self).wf(),
            final(self).registered() == old(self).registered().insert(handler_name@, handler),
            final(self).names() == if old(self).registered().contains_key(handler_name@) {
                old(self).names()
            } else {
                old(self).names().push(handler_name@)
            },
    {
        let ghost before = self.handlers;
        self.handlers.insert(handler_name.to_owned(), handler);
        proof {
            if before.has_key(handler_name@) {
                let i = before.index_of(handler_name@);
                assert(self.names() =~= before.entries().map_values(|e: (String, H)| e.0@));
            } else {
                assert(self.names() =~= before.entries().map_values(|e: (String, H)| e.0@).push(
                    handler_name@,
                ));
            }
        }
    }

    /// The handler registered under `handler_name`.
    pub fn lookup(&self, handler_name: &str) -> (r: Option<&H>)
        requires
            self.wf(),
        ensures
            match r {
                Some(h) => self.registered().contains_key(handler_name@) && *h
                    == self.registered()[handler_name@],
                None => !self.registered().contains_key(handler_name@),
            },
    {
        let key = handler_name.to_owned();
        self.handlers.get(&key)
    }

    /// The handler that runs `task`: the one registered under the task's
    /// handler name, or the error naming the missing handler.
    pub fn resolve(&self, task: &Task) -> (r: Result<&H, String>)
        requires
            self.wf(),
        ensures
            match *task {
                Task::Execute { handler, payload } => match r {
                    Ok(h) => self.registered().contains_key(handler@) && *h == self.registered()[handler@],
                    Err(msg) => !self.registered().contains_key(handler@) && msg@ == unknown_handler_text(handler@),
                },
            },
    {
        match task {
            Task::Execute { handler, .. } => match self.lookup(handler.as_str()) {
                Some(h) => Ok(h),
                None => Err(unknown_handler_message(handler.as_str())),
            },
        }
    }

    /// Whether a handler is registered under `handler_name`.
    pub fn has_handler(&self, handler_name: &str) -> (b: bool)
        requires
            self.wf(),
        ensures
            b == self.registered().contains_key(handler_name@),
    {
        let key = handler_name.to_owned();
        self.handlers.contains(&key)
    }

    /// The number of registered handlers.
    pub fn handler_count(&self) -> (n: usize)
        requires
            self.wf(),
        ensures
            n == self.names().len(),
    {
        self.handlers.len()
    }

    /// The registered names, in registration order.
    pub fn list_handlers(&self) -> (r: Vec<String>)
        requires
            self.wf(),
        ensures
            r@.map_values(|s: String| s@) == self.names(),
    {
        let mut r: Vec<String> = Vec::new();
        let n = self.handlers.len();
        let ghost es = self.handlers.entries();
        let mut i: usize = 0;
        while i < n
            invariant
                es == self.handlers.entries(),
                n == es.len(),
                i <= n,
                r@.map_values(|s: String| s@) == es.take(i as int).map_values(|e: (String, H)| e.0@),
            decreases n - i,
        {
            let e = self.handlers.entry_at(i);
            let ghost before = r@;
            r.push(e.0.clone());
            proof {
                assert(r@ == before.push(es[i as int].0));
                assert(r@.map_values(|s: String| s@) =~= before.map_values(|s: String| s@).push(
                    es[i as int].0@,
                ));
                assert(es.take(i + 1).map_values(|e: (String, H)| e.0@) =~= es.take(i as int).map_values(
                    |e: (String, H)| e.0@,
                ).push(es[i as int].0@));
                assert(r@.map_values(|s: String| s@) =~= es.take(i + 1).map_values(
                    |e: (String, H)| e.0@,
                ));
            }
            i = i + 1;
        }
        proof {
            assert(es.take(n as int) =~= es);
        }
        r
    }
}

impl<H> Default for TaskHandlerRegistry<H> {
    fn default() -> (r: Self)
        ensures
            r.wf(),
            r.registered() == Map::<Seq<char>, H>::empty(),
            r.names() == Seq::<Seq<char>>::empty(),
    {
        Self::new()
    }
}

/// The error message for a task naming `handler_name`, which has no
/// registered handler.
pub fn unknown_handler_message(handler_name: &str) -> (m: String)
    ensures
        m@ == unknown_handler_text(handler_name@),
{
    let mut m = String::new();
    let prefix = crate::text::chars_of(UNKNOWN_HANDLER_PREFIX);
    let name = crate::text::chars_of(handler_name);
    let mut i: usize = 0;
    while i < prefix.len()
        invariant
            prefix@ == UNKNOWN_HANDLER_PREFIX@,
            i <= prefix@.len(),
            m@ == prefix@.take(i as int),
        decreases prefix@.len() - i,
    {
        crate::sys::push_char(&mut m, prefix[i]);
        proof {
            assert(prefix@.take(i + 1) =~= prefix@.take(i as int).push(prefix@[i as int]));
        }
        i = i + 1;
    }
    let mut j: usize = 0;
    while j < name.len()
        invariant
            prefix@ == UNKNOWN_HANDLER_PREFIX@,
            name@ == handler_name@,
            j <= name@.len(),
            m@ == prefix@ + name@.take(j as int),
        decreases name@.len() - j,
    {
        crate::sys::push_char(&mut m, name[j]);
        proof {
            assert(name@.take(j + 1) =~= name@.take(j as int).push(name@[j as int]));
        }
        j = j + 1;
    }
    proof {
        assert(prefix@.take(prefix@.len() as int) =~= prefix@);
        assert(name@.take(name@.len() as int) =~= name@);
    }
    m
}

} // verus!
