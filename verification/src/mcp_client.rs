//! The hub's own MCP clients, and which client serves which tool.
//!
//! The manager is generic over the client kind `C`; it only stores clients.
use vstd::prelude::*;
use crate::keyed::{
    key_position, lemma_lookup_has_key, lemma_lookup_upsert, lemma_upsert_entries,
    lemma_upsert_unique, lookup, unique_keys, upsert, KeyedList,
};
use crate::text::{join2, views};

verus! {

/// The tool table after a client at position `index` announces `names`, in
/// order: each name now leads to that client.
pub open spec fn assign_tools(
    s: Seq<(Seq<char>, usize)>,
    names: Seq<String>,
    index: usize,
) -> Seq<(Seq<char>, usize)>
    decreases names.len(),
{
    if names.len() == 0 {
        s
    } else {
        upsert(assign_tools(s, names.drop_last(), index), names.last()@, index)
    }
}

/// The tools of every list that was obtained, in order; lists that could
/// not be obtained add nothing.
pub open spec fn merged<T>(lists: Seq<Option<Vec<T>>>) -> Seq<T>
    decreases lists.len(),
{
    if lists.len() == 0 {
        Seq::empty()
    } else {
        merged(lists.drop_last()) + match lists.last() {
            Some(v) => v@,
            None => Seq::empty(),
        }
    }
}


/// After a client announces its tools, each announced name leads to that
/// client, and every other name leads where it led before.
pub proof fn lemma_announced_tools_route(
    s: Seq<(Seq<char>, usize)>,
    names: Seq<String>,
    index: usize,
    name: Seq<char>,
)
    requires
        unique_keys(s),
    ensures
        unique_keys(assign_tools(s, names, index)),
        views(names).contains(name) ==> lookup(assign_tools(s, names, index), name) == Some(index),
        !views(names).contains(name) ==> lookup(assign_tools(s, names, index), name) == lookup(
            s,
            name,
        ),
    decreases names.len(),
{
    if names.len() > 0 {
        let init = names.drop_last();
        let last = names.last();
        lemma_announced_tools_route(s, init, index, name);
        let r = assign_tools(s, init, index);
        lemma_lookup_upsert(r, last@, index);
        lemma_upsert_unique(r, last@, index);
        assert(views(names) == views(init).push(last@));
        if name != last@ {
            if views(names).contains(name) {
                let j = choose|j: int| 0 <= j < views(names).len() && views(names)[j] == name;
                assert(views(init)[j] == name);
            }
            if views(init).contains(name) {
                let j = choose|j: int| 0 <= j < views(init).len() && views(init)[j] == name;
                assert(views(names)[j] == name);
            }
        } else {
            assert(views(names)[names.len() - 1] == name);
        }
    }
}

/// Merging one more list adds all of its tools at the end when it was
/// obtained, and nothing when it was not.
pub proof fn lemma_merged_push<T>(lists: Seq<Option<Vec<T>>>, item: Option<Vec<T>>)
    ensures
        item matches Some(v) ==> merged(lists.push(item)) == merged(lists) + v@,
        item is None ==> merged(lists.push(item)) == merged(lists),
{
    assert(lists.push(item).drop_last() =~= lists);
    assert(merged(lists) + Seq::<T>::empty() =~= merged(lists));
}

/// Merging two runs of lists one after the other is merging each and
/// joining the results.
pub proof fn lemma_merged_concat<T>(a: Seq<Option<Vec<T>>>, b: Seq<Option<Vec<T>>>)
    ensures
        merged(a + b) == merged(a) + merged(b),
    decreases b.len(),
{
    if b.len() == 0 {
        assert(a + b =~= a);
        assert(merged(a) + merged(b) =~= merged(a));
    } else {
        let bl = b.drop_last();
        lemma_merged_concat(a, bl);
        assert((a + b).drop_last() =~= a + bl);
        assert((a + b).last() == b.last());
        let tail = match b.last() {
            Some(v) => v@,
            None => Seq::<T>::empty(),
        };
        assert(merged(a) + merged(bl) + tail =~= merged(a) + (merged(bl) + tail));
    }
}

/// Every tool of every obtained list is in the merged list.
pub proof fn lemma_merged_keeps_every_tool<T>(lists: Seq<Option<Vec<T>>>, i: int, k: int)
    requires
        0 <= i < lists.len(),
        lists[i] is Some,
        0 <= k < lists[i]->0@.len(),
    ensures
        merged(lists).contains(lists[i]->0@[k]),
    decreases lists.len(),
{
    let d = lists.drop_last();
    if i == lists.len() - 1 {
        let v = lists[i]->0@;
        assert(merged(lists) == merged(d) + v);
        assert(merged(lists)[merged(d).len() + k] == v[k]);
    } else {
        assert(d[i] == lists[i]);
        lemma_merged_keeps_every_tool(d, i, k);
        let m = choose|m: int| 0 <= m < merged(d).len() && merged(d)[m] == lists[i]->0@[k];
        assert(merged(lists)[m] == merged(d)[m]);
    }
}

/// The tools obtained from all clients together.
pub open spec fn obtained_total<T>(lists: Seq<Option<Vec<T>>>) -> nat
    decreases lists.len(),
{
    if lists.len() == 0 {
        0
    } else {
        obtained_total(lists.drop_last()) + match lists.last() {
            Some(v) => v@.len(),
            None => 0,
        }
    }
}

/// The merged list has exactly as many tools as the obtained lists together.
pub proof fn lemma_merged_len<T>(lists: Seq<Option<Vec<T>>>)
    ensures
        merged(lists).len() == obtained_total(lists),
    decreases lists.len(),
{
    if lists.len() > 0 {
        lemma_merged_len(lists.drop_last());
    }
}

/// Why a call through the manager failed.
#[derive(Debug)]
pub enum McpClientError {
    ToolNotFound(String),
}

impl McpClientError {
    /// The message that reports this error.
    pub fn message(&self) -> (s: String)
        ensures
            s@ == match *self {
                McpClientError::ToolNotFound(t) => "Tool not found: "@ + t@,
            },
    {
        match self {
            McpClientError::ToolNotFound(t) => join2("Tool not found: ", t.as_str()),
        }
    }
}

/// The clients, and for each tool name the client that serves it.
pub struct McpClientManager<C> {
    clients: Vec<C>,
    tool_registry: KeyedList<usize>,
}

impl<C> McpClientManager<C> {
    /// The clients, in the order they were added.
    pub closed spec fn client_list(&self) -> Seq<C> {
        self.clients@
    }

    /// Tool names and the position of the client that serves each.
    pub closed spec fn tool_table(&self) -> Seq<(Seq<char>, usize)> {
        self.tool_registry@
    }

    /// Tool names are unique, each leads to an existing client, and client
    /// positions fit in a `usize`.
    pub open spec fn wf(&self) -> bool {
        &&& self.client_list().len() <= usize::MAX
        &&& unique_keys(self.tool_table())
        &&& forall|i: int|
            0 <= i < self.tool_table().len() ==> #[trigger] self.tool_table()[i].1
                < self.client_list().len()
    }

    /// No clients yet.
    pub fn new() -> (m: Self)
        ensures
            m.wf(),
            m.client_list() == Seq::<C>::empty(),
            m.tool_table() == Seq::<(Seq<char>, usize)>::empty(),
    {
        McpClientManager { clients: Vec::new(), tool_registry: KeyedList::new() }
    }

    /// Adds a connected client with the names of the tools it offers; each of
    /// them now leads to this client.
    pub fn add_client(&mut self, client: C, tool_names: Vec<String>)
        requires
            old(self).wf(),
        ensures
            final(self).wf(),
            final(self).client_list() == old(self).client_list().push(client),
            final(self).tool_table() == assign_tools(
                old(self).tool_table(),
                tool_names@,
                old(self).client_list().len() as usize,
            ),
    {
        let index = self.clients.len();
        self.clients.push(client);
        assert(self.clients@.len() == self.clients.len());
        let ghost t0 = self.tool_registry@;
        let n = tool_names.len();
        assert(tool_names@.take(0) =~= Seq::<String>::empty());
        for i in 0..n
            invariant
                n == tool_names@.len(),
                index == old(self).clients@.len(),
                self.clients@ == old(self).clients@.push(client),
                self.clients@.len() <= usize::MAX,
                self.tool_registry.wf(),
                self.tool_registry@ == assign_tools(t0, tool_names@.take(i as int), index),
                forall|j: int|
                    0 <= j < self.tool_registry@.len() ==> #[trigger] self.tool_registry@[j].1
                        < self.clients@.len(),
        {
            let ghost before = self.tool_registry@;
            let name = tool_names[i].clone();
            self.tool_registry.insert(name, index);
            proof {
                lemma_upsert_entries(before, tool_names@[i as int]@, index);
                assert(tool_names@.take(i + 1).drop_last() =~= tool_names@.take(i as int));
                assert(tool_names@.take(i + 1).last() == tool_names@[i as int]);
                assert forall|j: int| 0 <= j < self.tool_registry@.len() implies #[trigger] self.tool_registry@[j].1
                    < self.clients@.len() by {
                    if self.tool_registry@[j] != (tool_names@[i as int]@, index) {
                        assert(self.tool_registry@[j] == before[j]);
                    }
                }
            }
        }
        assert(tool_names@.take(n as int) =~= tool_names@);
    }

    /// The client that serves the tool named `tool_name`.
    pub fn route_tool(&self, tool_name: &String) -> (r: Result<&C, McpClientError>)
        requires
            self.wf(),
        ensures
            match lookup(self.tool_table(), tool_name@) {
                Some(i) => r matches Ok(c) && *c == self.client_list()[i as int],
                None => r matches Err(McpClientError::ToolNotFound(t)) && t@ == tool_name@,
            },
    {
        proof {
            lemma_lookup_has_key(self.tool_registry@, tool_name@);
        }
        match self.tool_registry.get(tool_name) {
            Some(i) => {
                proof {
                    let p = key_position(self.tool_registry@, tool_name@);
                    assert(self.tool_registry@[p].1 < self.clients@.len());
                }
                Ok(&self.clients[*i])
            },
            None => Err(McpClientError::ToolNotFound(tool_name.clone())),
        }
    }

    /// The clients, in the order they were added.
    pub fn clients(&self) -> (r: &Vec<C>)
        ensures
            r@ == self.client_list(),
    {
        &self.clients
    }
}

/// Joins the tool lists that the clients gave, in client order, skipping
/// clients whose list could not be obtained.
pub fn merge_tool_lists<T>(lists: Vec<Option<Vec<T>>>) -> (r: Vec<T>)
    ensures
        r@ == merged(lists@),
{
    let ghost all = lists@;
    let mut rest = lists;
    let mut res: Vec<T> = Vec::new();
    let ghost mut k: int = 0;
    assert(all.take(0) =~= Seq::<Option<Vec<T>>>::empty());
    assert(rest@ =~= all.skip(0));
    while rest.len() > 0
        invariant
            0 <= k <= all.len(),
            rest@ == all.skip(k),
            res@ == merged(all.take(k)),
        decreases rest.len(),
    {
        let item = rest.remove(0);
        proof {
            assert(item == all[k]);
            assert(all.take(k + 1).drop_last() =~= all.take(k));
            assert(all.take(k + 1).last() == all[k]);
            assert(rest@ =~= all.skip(k + 1));
        }
        let ghost before = res@;
        match item {
            Some(mut v) => {
                let ghost vv = v@;
                res.append(&mut v);
                assert(res@ =~= before + vv);
            },
            None => {
                assert(res@ =~= before + Seq::<T>::empty());
            },
        }
        proof {
            k = k + 1;
        }
    }
    assert(all.take(k) =~= all);
    res
}

} // verus!
