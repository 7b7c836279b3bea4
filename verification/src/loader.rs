use vstd::prelude::*;
use crate::node::{Node, NodeType};
use crate::assoc::{assoc_map, keys_unique, assoc_find, assoc_insert, lemma_assoc_map_domain};

verus! {

broadcast use vstd::std_specs::vec::group_vec_axioms;

/// Whether `s` begins with `p`.
pub open spec fn starts_with(s: Seq<char>, p: Seq<char>) -> bool {
    s.len() >= p.len() && s.subrange(0, p.len() as int) == p
}

/// Where an imported file is read from: `auto:name` in the library's
/// `auto` directory, `dart:name` as `name.dart` in its `core` directory,
/// anything else relative to the directory of the program.
pub open spec fn library_path_spec(file: Seq<char>, base: Seq<char>, libdir: Seq<char>) -> Seq<char> {
    if starts_with(file, "auto:"@) {
        libdir + "/auto/"@ + file.subrange(5, file.len() as int)
    } else if starts_with(file, "dart:"@) {
        libdir + "/core/"@ + file.subrange(5, file.len() as int) + ".dart"@
    } else {
        base + "/"@ + file
    }
}

/// Whether `cs` begins with `p`.
fn has_prefix(cs: &Vec<char>, p: &str) -> (r: bool)
    ensures
        r == starts_with(cs@, p@),
{
    let pc = crate::text::chars_of(p);
    if pc.len() > cs.len() {
        return false;
    }
    let mut i: usize = 0;
    while i < pc.len()
        invariant
            pc@ == p@,
            pc@.len() <= cs@.len(),
            i <= pc@.len(),
            cs@.subrange(0, i as int) == pc@.subrange(0, i as int),
        decreases pc@.len() - i,
    {
        if cs[i] != pc[i] {
            assert(cs@.subrange(0, pc@.len() as int)[i as int] != pc@[i as int]);
            return false;
        }
        assert(cs@.subrange(0, i as int + 1) =~= cs@.subrange(0, i as int).push(cs@[i as int]));
        assert(pc@.subrange(0, i as int + 1) =~= pc@.subrange(0, i as int).push(pc@[i as int]));
        i = i + 1;
    }
    assert(pc@.subrange(0, pc@.len() as int) =~= pc@);
    true
}

/// The characters of `cs` from index `from` on, as a string.
fn rest_of(cs: &Vec<char>, from: usize) -> (r: String)
    requires
        from <= cs@.len(),
    ensures
        r@ == cs@.subrange(from as int, cs@.len() as int),
{
    let mut r = String::new();
    let mut i = from;
    while i < cs.len()
        invariant
            from <= i <= cs@.len(),
            r@ == cs@.subrange(from as int, i as int),
        decreases cs@.len() - i,
    {
        crate::text::string_push(&mut r, cs[i]);
        assert(cs@.subrange(from as int, i as int + 1) =~= cs@.subrange(from as int, i as int).push(cs@[i as int]));
        i = i + 1;
    }
    r
}

/// The path an import is read from, as `library_path_spec` says.
pub fn library_path(file: &str, base: &str, libdir: &str) -> (r: String)
    ensures
        r@ == library_path_spec(file@, base@, libdir@),
{
    proof {
        reveal_strlit("auto:");
        reveal_strlit("dart:");
    }
    let cs = crate::text::chars_of(file);
    if has_prefix(&cs, "auto:") {
        let mut r = String::from_str(libdir);
        r.append("/auto/");
        let rest = rest_of(&cs, 5);
        r.append(rest.as_str());
        r
    } else if has_prefix(&cs, "dart:") {
        let mut r = String::from_str(libdir);
        r.append("/core/");
        let rest = rest_of(&cs, 5);
        r.append(rest.as_str());
        r.append(".dart");
        r
    } else {
        let mut r = String::from_str(base);
        r.append("/");
        r.append(file);
        r
    }
}

/// The name a top-level node declares: a function's, a class's (for its
/// constructor), or a variable's or constant's.
pub open spec fn gname(n: Node) -> Option<Seq<char>> {
    match n.nodetype {
        NodeType::FunDef(_, name, _, _, _) => Some(name@),
        NodeType::Constructor(name, _, _, _, _, _, _) => Some(name@),
        NodeType::TopVarLazy(_, name, _, _) => Some(name@),
        NodeType::ConstTopLazy(_, name, _, _) => Some(name@),
        _ => None,
    }
}

/// The name a top-level node declares, as `gname` says.
pub fn global_name(n: &Node) -> (r: Option<String>)
    ensures
        match gname(*n) {
            Some(s) => r matches Some(x) && x@ == s,
            None => r is None,
        },
{
    match &n.nodetype {
        NodeType::FunDef(_, name, _, _, _) => Some(name.clone()),
        NodeType::Constructor(name, _, _, _, _, _, _) => Some(name.clone()),
        NodeType::TopVarLazy(_, name, _, _) => Some(name.clone()),
        NodeType::ConstTopLazy(_, name, _, _) => Some(name.clone()),
        _ => None,
    }
}

/// Why the top-level names of a file cannot be tabled.
pub enum LoadError {
    /// The name is declared twice in the same file.
    AlreadyDeclared(String),
    /// The node at this index of the globals declares no name.
    NotADeclaration(usize),
}

/// The first index from `start` before `end` whose node declares `k`, or
/// `end`.
pub open spec fn first_decl(g: Seq<Node>, start: int, end: int, k: Seq<char>) -> int
    decreases end - start,
{
    if start >= end {
        end
    } else if gname(g[start]) == Some(k) {
        start
    } else {
        first_decl(g, start + 1, end, k)
    }
}

/// Some node from `start` before `end` declares `k`.
pub open spec fn declared_in(g: Seq<Node>, start: int, end: int, k: Seq<char>) -> bool {
    exists|i: int| start <= i < end && #[trigger] gname(g[i]) == Some(k)
}

proof fn lemma_first_decl(g: Seq<Node>, start: int, end: int, k: Seq<char>)
    requires
        start <= end,
    ensures
        start <= first_decl(g, start, end, k) <= end,
        declared_in(g, start, end, k) <==> first_decl(g, start, end, k) < end,
        first_decl(g, start, end, k) < end ==> gname(g[first_decl(g, start, end, k)]) == Some(k),
        forall|j: int| start <= j < first_decl(g, start, end, k) ==> #[trigger] gname(g[j]) != Some(k),
    decreases end - start,
{
    if start < end && gname(g[start]) != Some(k) {
        lemma_first_decl(g, start + 1, end, k);
        if declared_in(g, start, end, k) {
            let i = choose|i: int| start <= i < end && #[trigger] gname(g[i]) == Some(k);
            assert(declared_in(g, start + 1, end, k));
        }
    }
}

/// The look-up table of the names a file declares, the nodes from `start`
/// before `end` of the globals: each name to its index. Fails on a name
/// declared twice, or on a node that declares none.
pub fn own_table(globals: &Vec<Node>, start: usize, end: usize) -> (r: Result<Vec<(String, usize)>, LoadError>)
    requires
        start <= end <= globals@.len(),
    ensures
        r matches Ok(t) ==> {
            &&& keys_unique(t@)
            &&& forall|i: int| start <= i < end ==> (#[trigger] gname(globals@[i])) is Some
                && assoc_map(t@).contains_key(gname(globals@[i])->0)
                && assoc_map(t@)[gname(globals@[i])->0] == i
            &&& forall|k: Seq<char>| #[trigger] assoc_map(t@).contains_key(k) ==> declared_in(globals@, start as int, end as int, k)
        },
        r matches Err(LoadError::AlreadyDeclared(name)) ==> exists|i: int, j: int|
            start <= i < j < end && #[trigger] gname(globals@[i]) == Some(name@) && #[trigger] gname(globals@[j]) == Some(name@),
        r matches Err(LoadError::NotADeclaration(i)) ==> start <= i < end && gname(globals@[i as int]) is None,
{
    let mut t: Vec<(String, usize)> = Vec::new();
    let mut i = start;
    while i < end
        invariant
            start <= i <= end <= globals@.len(),
            keys_unique(t@),
            forall|j: int| start <= j < i ==> (#[trigger] gname(globals@[j])) is Some
                && assoc_map(t@).contains_key(gname(globals@[j])->0)
                && assoc_map(t@)[gname(globals@[j])->0] == j,
            forall|k: Seq<char>| #[trigger] assoc_map(t@).contains_key(k) ==> declared_in(globals@, start as int, i as int, k),
        decreases end - i,
    {
        let name = match global_name(&globals[i]) {
            Some(n) => n,
            None => { return Err(LoadError::NotADeclaration(i)); },
        };
        match assoc_find(&t, name.as_str()) {
            Some(_) => {
                proof {
                    let j = choose|j: int| start <= j < i && #[trigger] gname(globals@[j]) == Some(name@);
                    assert(gname(globals@[i as int]) == Some(name@));
                }
                return Err(LoadError::AlreadyDeclared(name));
            },
            None => {},
        }
        let ghost before = t@;
        assoc_insert(&mut t, name, i);
        proof {
            assert forall|k: Seq<char>| #[trigger] assoc_map(t@).contains_key(k) implies declared_in(globals@, start as int, i as int + 1, k) by {
                if k != gname(globals@[i as int])->0 {
                    assert(assoc_map(before).contains_key(k));
                    let j = choose|j: int| start <= j < i && #[trigger] gname(globals@[j]) == Some(k);
                    assert(gname(globals@[j]) == Some(k));
                } else {
                    assert(gname(globals@[i as int]) == Some(k));
                }
            }
            assert forall|j: int| start <= j < i + 1 implies (#[trigger] gname(globals@[j])) is Some
                && assoc_map(t@).contains_key(gname(globals@[j])->0)
                && assoc_map(t@)[gname(globals@[j])->0] == j by {
                if j < i {
                    assert(assoc_map(before).contains_key(gname(globals@[j])->0));
                    assert(gname(globals@[j])->0 != gname(globals@[i as int])->0);
                }
            }
        }
        i = i + 1;
    }
    Ok(t)
}

/// Adds to `table` the names that the nodes from `start` before `end`
/// declare, each to the first of them, where `table` has no entry yet;
/// names already there shadow the imported ones.
pub fn merge_table(table: &mut Vec<(String, usize)>, globals: &Vec<Node>, start: usize, end: usize) -> (r: Result<(), LoadError>)
    requires
        start <= end <= globals@.len(),
        keys_unique(old(table)@),
    ensures
        keys_unique(final(table)@),
        r is Ok ==> {
            &&& forall|i: int| start <= i < end ==> (#[trigger] gname(globals@[i])) is Some
            &&& forall|k: Seq<char>| #[trigger] assoc_map(final(table)@).contains_key(k) <==>
                assoc_map(old(table)@).contains_key(k) || declared_in(globals@, start as int, end as int, k)
            &&& forall|k: Seq<char>| #[trigger] assoc_map(old(table)@).contains_key(k) ==> assoc_map(final(table)@)[k] == assoc_map(old(table)@)[k]
            &&& forall|k: Seq<char>| !assoc_map(old(table)@).contains_key(k) && declared_in(globals@, start as int, end as int, k) ==>
                #[trigger] assoc_map(final(table)@)[k] == first_decl(globals@, start as int, end as int, k)
        },
        r matches Err(e) ==> e matches LoadError::NotADeclaration(i) && start <= i < end && gname(globals@[i as int]) is None,
{
    let ghost t0 = table@;
    let mut i = start;
    while i < end
        invariant
            start <= i <= end <= globals@.len(),
            keys_unique(table@),
            forall|j: int| start <= j < i ==> (#[trigger] gname(globals@[j])) is Some,
            forall|k: Seq<char>| #[trigger] assoc_map(table@).contains_key(k) <==>
                assoc_map(t0).contains_key(k) || declared_in(globals@, start as int, i as int, k),
            forall|k: Seq<char>| #[trigger] assoc_map(t0).contains_key(k) ==> assoc_map(table@)[k] == assoc_map(t0)[k],
            forall|k: Seq<char>| !assoc_map(t0).contains_key(k) && declared_in(globals@, start as int, i as int, k) ==>
                #[trigger] assoc_map(table@)[k] == first_decl(globals@, start as int, end as int, k),
            t0 == old(table)@,
        decreases end - i,
    {
        let name = match global_name(&globals[i]) {
            Some(n) => n,
            None => { return Err(LoadError::NotADeclaration(i)); },
        };
        let ghost before = table@;
        let ghost nm = name@;
        proof { lemma_first_decl(globals@, start as int, end as int, nm); }
        match assoc_find(table, name.as_str()) {
            Some(_) => {
                proof {
                    assert forall|k: Seq<char>| #[trigger] assoc_map(table@).contains_key(k) <==>
                        assoc_map(t0).contains_key(k) || declared_in(globals@, start as int, i as int + 1, k) by {
                        if k == nm {
                            assert(gname(globals@[i as int]) == Some(nm));
                        } else if declared_in(globals@, start as int, i as int + 1, k) {
                            let j = choose|j: int| start <= j < i + 1 && #[trigger] gname(globals@[j]) == Some(k);
                            assert(j != i);
                            assert(declared_in(globals@, start as int, i as int, k));
                        }
                    }
                    assert forall|k: Seq<char>| !assoc_map(t0).contains_key(k) && declared_in(globals@, start as int, i as int + 1, k) implies
                        #[trigger] assoc_map(table@)[k] == first_decl(globals@, start as int, end as int, k) by {
                        if k != nm {
                            let j = choose|j: int| start <= j < i + 1 && #[trigger] gname(globals@[j]) == Some(k);
                            assert(j != i);
                            assert(declared_in(globals@, start as int, i as int, k));
                        }
                    }
                }
            },
            None => {
                proof {
                    assert(!declared_in(globals@, start as int, i as int, nm));
                    assert forall|j: int| start <= j < i implies #[trigger] gname(globals@[j]) != Some(nm) by {
                        if gname(globals@[j]) == Some(nm) {
                            assert(declared_in(globals@, start as int, i as int, nm));
                        }
                    }
                    assert(first_decl(globals@, start as int, end as int, nm) == i) by {
                        if first_decl(globals@, start as int, end as int, nm) < i {
                            let f = first_decl(globals@, start as int, end as int, nm);
                            assert(gname(globals@[f]) == Some(nm));
                        }
                    }
                }
                assoc_insert(table, name, i);
                proof {
                    assert forall|k: Seq<char>| #[trigger] assoc_map(table@).contains_key(k) <==>
                        assoc_map(t0).contains_key(k) || declared_in(globals@, start as int, i as int + 1, k) by {
                        if k == nm {
                            assert(gname(globals@[i as int]) == Some(nm));
                        } else if declared_in(globals@, start as int, i as int + 1, k) {
                            let j = choose|j: int| start <= j < i + 1 && #[trigger] gname(globals@[j]) == Some(k);
                            assert(j != i);
                            assert(declared_in(globals@, start as int, i as int, k));
                        }
                    }
                    assert forall|k: Seq<char>| !assoc_map(t0).contains_key(k) && declared_in(globals@, start as int, i as int + 1, k) implies
                        #[trigger] assoc_map(table@)[k] == first_decl(globals@, start as int, end as int, k) by {
                        if k != nm {
                            let j = choose|j: int| start <= j < i + 1 && #[trigger] gname(globals@[j]) == Some(k);
                            assert(j != i);
                            assert(declared_in(globals@, start as int, i as int, k));
                        }
                    }
                }
            },
        }
        i = i + 1;
    }
    Ok(())
}

} // verus!
