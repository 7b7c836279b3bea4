use vstd::prelude::*;
use crate::assoc::{assoc_map, assoc_find, assoc_get, keys_unique, lemma_assoc_map_value};
use crate::node::Node;
use crate::objsys::{ObjSys, RefKey};
use crate::stack::Stack;

verus! {

broadcast use vstd::std_specs::vec::group_vec_axioms;

/// The interpreter's state.
/// - `filepath`: the file being executed.
/// - `globals`: every top-level node (functions, constructors, variables).
/// - `looktables`: for each file, the top-level names it can see, each with
///   its index in `globals`.
/// - `stack`: the call and lexical stack.
/// - `objsys`: classes and heap objects.
/// - `constructing`: objects under construction, which the collector keeps.
/// - `eval_var`: the top-level variable whose value is being computed, to
///   catch one that depends on itself.
/// - `in_const`: whether a constant's value is being computed.
/// - `debug`: whether debug messages are printed.
pub struct State {
    pub filepath: String,
    pub globals: Vec<Node>,
    pub looktables: Vec<(String, Vec<(String, usize)>)>,
    pub stack: Stack,
    pub objsys: ObjSys,
    pub constructing: Vec<RefKey>,
    pub eval_var: String,
    pub in_const: bool,
    pub debug: bool,
    /// The lines that the program has printed, oldest first.
    pub printed: Ghost<Seq<Seq<char>>>,
}

/// The look-up table of file `file`: each name it sees to an index into the
/// globals.
pub open spec fn table_of(tables: Seq<(String, Vec<(String, usize)>)>, file: Seq<char>) -> Map<Seq<char>, usize> {
    assoc_map(assoc_map(tables)[file]@)
}

impl State {
    /// The tables are sound: no file occurs twice, and no name twice in a
    /// file's table.
    pub open spec fn tables_wf(&self) -> bool {
        &&& keys_unique(self.looktables@)
        &&& forall|i: int| 0 <= i < self.looktables@.len() ==> keys_unique(#[trigger] self.looktables@[i].1@)
    }

    /// The current file has a look-up table.
    pub open spec fn has_table(&self) -> bool {
        assoc_map(self.looktables@).contains_key(self.filepath@)
    }

    /// The current file's look-up table.
    pub open spec fn table(&self) -> Map<Seq<char>, usize> {
        table_of(self.looktables@, self.filepath@)
    }

    /// Name `name` is visible from the current file and stands for an
    /// existing global.
    pub open spec fn global_ok(&self, name: Seq<char>) -> bool {
        self.table().contains_key(name) && self.table()[name] < self.globals@.len()
    }

    /// A fresh state: no file, no globals, empty stack and object system.
    pub fn new() -> (r: State)
        ensures
            r.filepath@ == Seq::<char>::empty(),
            r.globals@.len() == 0,
            r.looktables@.len() == 0,
            r.tables_wf(),
            r.stack.wf(),
            r.stack.model().call_level == 0,
            r.stack.model().lex_level == 0,
            r.objsys.wf(),
            r.constructing@.len() == 0,
            r.eval_var@ == Seq::<char>::empty(),
            !r.in_const,
            !r.debug,
            r.printed@ == Seq::<Seq<char>>::empty(),
    {
        State {
            filepath: String::new(),
            globals: Vec::new(),
            looktables: Vec::new(),
            stack: Stack::new(),
            objsys: ObjSys::new(),
            constructing: Vec::new(),
            eval_var: String::new(),
            in_const: false,
            debug: false,
            printed: Ghost(Seq::empty()),
        }
    }

    /// The current file's table, found in the list of tables.
    fn current_table(&self) -> (r: &Vec<(String, usize)>)
        requires
            self.tables_wf(),
            self.has_table(),
        ensures
            *r == assoc_map(self.looktables@)[self.filepath@],
            keys_unique(r@),
    {
        let i = assoc_find(&self.looktables, self.filepath.as_str()).unwrap();
        proof { lemma_assoc_map_value(self.looktables@, i as int); }
        &self.looktables[i].1
    }

    /// Whether the current file has a look-up table.
    pub fn has_table_exec(&self) -> (r: bool)
        ensures
            r == self.has_table(),
    {
        assoc_find(&self.looktables, self.filepath.as_str()).is_some()
    }

    /// The index into the globals of `name`, when the current file has a
    /// table that holds it and the index is in range.
    pub fn find_global(&self, name: &str) -> (r: Option<usize>)
        requires
            self.tables_wf(),
        ensures
            match r {
                Some(i) => self.has_table() && self.global_ok(name@) && i == self.table()[name@],
                None => !(self.has_table() && self.global_ok(name@)),
            },
    {
        if !self.has_table_exec() {
            return None;
        }
        let t = self.current_table();
        match assoc_get(t, name) {
            Some(i) => if *i < self.globals.len() { Some(*i) } else { None },
            None => None,
        }
    }

    /// Whether `name` is visible from the current file.
    pub fn has_global(&self, name: &str) -> (r: bool)
        requires
            self.tables_wf(),
            self.has_table(),
        ensures
            r == self.table().contains_key(name@),
    {
        let t = self.current_table();
        assoc_find(t, name).is_some()
    }

    /// The index into the globals of `name`, seen from the current file.
    fn global_index(&self, name: &str) -> (r: usize)
        requires
            self.tables_wf(),
            self.has_table(),
            self.global_ok(name@),
        ensures
            r == self.table()[name@],
            r < self.globals@.len(),
    {
        let t = self.current_table();
        *assoc_get(t, name).unwrap()
    }

    /// A copy of the global `name`.
    pub fn get_global(&self, name: &str) -> (r: Node)
        requires
            self.tables_wf(),
            self.has_table(),
            self.global_ok(name@),
        ensures
            r.view() == self.globals@[self.table()[name@] as int].view(),
    {
        let i = self.global_index(name);
        self.globals[i].clone()
    }

    /// The global `name`.
    pub fn get_global_ref(&self, name: &str) -> (r: &Node)
        requires
            self.tables_wf(),
            self.has_table(),
            self.global_ok(name@),
        ensures
            *r == self.globals@[self.table()[name@] as int],
    {
        let i = self.global_index(name);
        &self.globals[i]
    }

    /// Replaces the global `name` by `val`.
    pub fn set_global(&mut self, name: &str, val: Node)
        requires
            old(self).tables_wf(),
            old(self).has_table(),
            old(self).global_ok(name@),
        ensures
            final(self).globals@ == old(self).globals@.update(old(self).table()[name@] as int, val),
            final(self).filepath == old(self).filepath,
            final(self).looktables == old(self).looktables,
            final(self).stack == old(self).stack,
            final(self).objsys == old(self).objsys,
            final(self).constructing == old(self).constructing,
            final(self).eval_var == old(self).eval_var,
            final(self).in_const == old(self).in_const,
            final(self).debug == old(self).debug,
    {
        let i = self.global_index(name);
        self.globals.set(i, val);
    }
}

} // verus!
