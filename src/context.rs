use vstd::prelude::*;

use crate::table::Table;

verus! {

/// Name of the namespace that every lookup falls back to.
pub const GLOBAL_NS: &'static str = "GLOBAL";

/// A named set of variables.
#[derive(Clone, Debug)]
pub struct Namespace {
    name: String,
    variables: Table<String>,
}

pub ghost struct NamespaceView {
    pub name: Seq<char>,
    pub variables: Map<Seq<char>, Seq<char>>,
}

impl View for Namespace {
    type V = NamespaceView;

    closed spec fn view(&self) -> NamespaceView {
        NamespaceView { name: self.name@, variables: self.variables@ }
    }
}

impl Namespace {
    /// An empty namespace called `name`.
    pub fn new(name: String) -> (r: Self)
        ensures
            r@ == (NamespaceView { name: name@, variables: Map::empty() }),
    {
        Namespace { name, variables: Table::new() }
    }

    /// The empty global namespace.
    pub fn global() -> (r: Self)
        ensures
            r@ == (NamespaceView { name: GLOBAL_NS@, variables: Map::empty() }),
    {
        Namespace::new(GLOBAL_NS.to_owned())
    }

    pub fn name(&self) -> (r: &String)
        ensures
            r@ == self@.name,
    {
        &self.name
    }

    /// Sets `key` to `value`, in place of any value it had.
    pub fn set(&mut self, key: String, value: String)
        ensures
            final(self)@ == (NamespaceView {
                name: old(self)@.name,
                variables: old(self)@.variables.insert(key@, value@),
            }),
    {
        self.variables.insert(key, value);
    }

    pub fn get(&self, key: &str) -> (r: Option<&String>)
        ensures
            r is Some == self@.variables.contains_key(key@),
            r matches Some(v) ==> v@ == self@.variables[key@],
    {
        self.variables.get(key)
    }
}

/// What each name in a list of namespaces stands for; where a name occurs more
/// than once, the last namespace of that name counts.
pub open spec fn namespaces_by_name(list: Seq<NamespaceView>) -> Map<Seq<char>, NamespaceView>
    decreases list.len(),
{
    if list.len() == 0 {
        Map::empty()
    } else {
        namespaces_by_name(list.drop_last()).insert(list.last().name, list.last())
    }
}

/// A context as it is written down: an optional global block, a render plan
/// from template paths to output paths, and a list of namespaces.
#[derive(Clone, Debug)]
pub struct SerializedContext {
    pub global: Option<Namespace>,
    pub renders: Vec<(String, String)>,
    pub namespaces: Vec<Namespace>,
}

pub ghost struct SerializedContextView {
    pub global: Option<NamespaceView>,
    pub renders: Seq<(Seq<char>, Seq<char>)>,
    pub namespaces: Seq<NamespaceView>,
}

pub open spec fn pair_view(p: (String, String)) -> (Seq<char>, Seq<char>) {
    (p.0@, p.1@)
}

impl View for SerializedContext {
    type V = SerializedContextView;

    open spec fn view(&self) -> SerializedContextView {
        SerializedContextView {
            global: match self.global {
                Some(g) => Some(g@),
                None => None,
            },
            renders: self.renders@.map_values(|p: (String, String)| pair_view(p)),
            namespaces: self.namespaces@.map_values(|n: Namespace| n@),
        }
    }
}

pub ghost struct ContextView {
    pub global: NamespaceView,
    pub namespaces: Map<Seq<char>, NamespaceView>,
    pub renders: Seq<(Seq<char>, Seq<char>)>,
}

/// The context that a serialized one stands for. A namespace named `GLOBAL` in
/// the list takes the place of the global block, which is an empty `GLOBAL`
/// namespace where it is left out.
pub open spec fn context_of(sc: SerializedContextView) -> ContextView {
    let by_name = namespaces_by_name(sc.namespaces);
    ContextView {
        global: if by_name.contains_key(GLOBAL_NS@) {
            by_name[GLOBAL_NS@]
        } else {
            match sc.global {
                Some(g) => g,
                None => NamespaceView { name: GLOBAL_NS@, variables: Map::empty() },
            }
        },
        namespaces: by_name.remove(GLOBAL_NS@),
        renders: sc.renders,
    }
}

impl SerializedContext {
    /// The context this stands for: namespaces by name, the last of a name
    /// counting, with one named `GLOBAL` taken out of the list to serve as the
    /// global namespace.
    pub fn to_context(self) -> (r: Context)
        ensures
            r@ == context_of(self@),
    {
        let ghost list = self@.namespaces;
        let mut namespaces: Table<Namespace> = Table::new();
        let mut replaced: Option<Namespace> = None;
        let global_name = GLOBAL_NS.to_owned();
        for ns in it: self.namespaces
            invariant
                global_name@ == GLOBAL_NS@,
                list == it.seq().map_values(|n: Namespace| n@),
                namespaces@ == namespaces_by_name(list.take(it.index() as int)).remove(GLOBAL_NS@),
                match replaced {
                    Some(g) => namespaces_by_name(list.take(it.index() as int)).contains_key(
                        GLOBAL_NS@,
                    ) && namespaces_by_name(list.take(it.index() as int))[GLOBAL_NS@] == g@,
                    None => !namespaces_by_name(list.take(it.index() as int)).contains_key(
                        GLOBAL_NS@,
                    ),
                },
        {
            let ghost k = it.index() as int;
            proof {
                assert(list.take(k + 1).drop_last() =~= list.take(k));
                assert(list.take(k + 1).last() == ns@);
            }
            if ns.name.eq(&global_name) {
                replaced = Some(ns);
                proof {
                    assert(namespaces_by_name(list.take(k + 1)).remove(GLOBAL_NS@)
                        =~= namespaces_by_name(list.take(k)).remove(GLOBAL_NS@));
                }
            } else {
                let name = ns.name.clone();
                namespaces.insert(name, ns);
                proof {
                    assert(namespaces_by_name(list.take(k + 1)).remove(GLOBAL_NS@)
                        =~= namespaces_by_name(list.take(k)).remove(GLOBAL_NS@).insert(
                        ns@.name,
                        ns@,
                    ));
                }
            }
        }
        proof {
            assert(list.take(list.len() as int) =~= list);
        }
        let global = match replaced {
            Some(g) => g,
            None => match self.global {
                Some(g) => g,
                None => Namespace::global(),
            },
        };
        Context { global, renders: self.renders, namespaces }
    }
}

/// Variables to render with: a global namespace and named ones.
#[derive(Clone, Debug)]
pub struct Context {
    global: Namespace,
    renders: Vec<(String, String)>,
    namespaces: Table<Namespace>,
}

impl View for Context {
    type V = ContextView;

    closed spec fn view(&self) -> ContextView {
        ContextView {
            global: self.global@,
            namespaces: self.namespaces@,
            renders: self.renders@.map_values(|p: (String, String)| pair_view(p)),
        }
    }
}

/// The value of `key` in the selected namespace, else in the global one. With
/// no namespace selected only the global one is looked at.
pub open spec fn variable_value(
    ctx: ContextView,
    key: Seq<char>,
    namespace: Option<Seq<char>>,
) -> Option<Seq<char>> {
    match namespace {
        Some(n) if ctx.namespaces.contains_key(n) && ctx.namespaces[n].variables.contains_key(
            key,
        ) => Some(ctx.namespaces[n].variables[key]),
        _ => if ctx.global.variables.contains_key(key) {
            Some(ctx.global.variables[key])
        } else {
            None
        },
    }
}

impl Context {
    pub fn get_namespace(&self, namespace: &str) -> (r: Option<&Namespace>)
        ensures
            r is Some == self@.namespaces.contains_key(namespace@),
            r matches Some(n) ==> n@ == self@.namespaces[namespace@],
    {
        self.namespaces.get(namespace)
    }

    pub fn global(&self) -> (r: &Namespace)
        ensures
            r@ == self@.global,
    {
        &self.global
    }

    pub fn get_global_variable(&self, key: &str) -> (r: Option<&String>)
        ensures
            r is Some == self@.global.variables.contains_key(key@),
            r matches Some(v) ==> v@ == self@.global.variables[key@],
    {
        self.global.get(key)
    }

    pub fn get_variable_value(&self, key: &str, namespace: &str) -> (r: Option<&String>)
        ensures
            match r {
                Some(v) => variable_value(self@, key@, Some(namespace@)) == Some(v@),
                None => variable_value(self@, key@, Some(namespace@)) is None,
            },
    {
        match self.get_namespace(namespace) {
            Some(ns) => match ns.get(key) {
                Some(v) => Some(v),
                None => self.get_global_variable(key),
            },
            None => self.get_global_variable(key),
        }
    }

    pub fn renders(&self) -> (r: &Vec<(String, String)>)
        ensures
            r@.map_values(|p: (String, String)| pair_view(p)) == self@.renders,
    {
        &self.renders
    }
}

} // verus!
