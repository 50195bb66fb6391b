//! Resolution of annotation names to fully qualified names: a module name is
//! prefixed with its ancestors, walking parent links until a root module
//! (one with no parent) is reached.

use vstd::prelude::*;

verus! {

/// The ways name resolution can fail.
#[derive(Debug, Clone, Copy, PartialEq, Eq, Structural)]
pub enum NameError {
    /// A segment of the name does not name a known module.
    UnknownModule,
    /// The parent chain does not settle within one step per module, so it
    /// revisits a module and would never settle.
    CircularModules,
}

/// A module of the annotation hierarchy: its own name and, unless it is a
/// root, the name of its parent.
#[derive(Debug, Clone)]
pub struct GraphModule {
    pub name: String,
    pub parent: Option<String>,
}

impl GraphModule {
    /// The parent's name, as a sequence of characters.
    pub open spec fn parent_view(self) -> Option<Seq<char>> {
        match self.parent {
            Some(p) => Some(p@),
            None => None,
        }
    }
}

/// The separator between name segments.
pub open spec fn sep_seq() -> Seq<char> {
    seq![':', ':']
}

/// The position of the first `::` in `s` at or after `i`.
pub open spec fn first_sep_from(s: Seq<char>, i: int) -> Option<int>
    decreases s.len() - i,
{
    if i < 0 || i + 1 >= s.len() {
        None
    } else if s[i] == ':' && s[i + 1] == ':' {
        Some(i)
    } else {
        first_sep_from(s, i + 1)
    }
}

/// The part of `s` before its first `::`, or all of `s` if it has none.
pub open spec fn first_segment(s: Seq<char>) -> Seq<char> {
    match first_sep_from(s, 0) {
        Some(i) => s.take(i),
        None => s,
    }
}

/// The index of the first module in `mods`, at or after `i`, whose name is
/// `nm`.
pub open spec fn find_module_from(mods: Seq<GraphModule>, nm: Seq<char>, i: int) -> Option<int>
    decreases mods.len() - i,
{
    if i < 0 || i >= mods.len() {
        None
    } else if mods[i].name@ == nm {
        Some(i)
    } else {
        find_module_from(mods, nm, i + 1)
    }
}

/// One resolution step on the partial name `s`: `None` if the first segment
/// names no module, `Some(None)` if it names a root module (so `s` is fully
/// resolved), and `Some(Some(next))` if the parent still has to be
/// prepended.
pub open spec fn resolve_step(mods: Seq<GraphModule>, s: Seq<char>) -> Option<Option<Seq<char>>> {
    match find_module_from(mods, first_segment(s), 0) {
        None => None,
        Some(j) => match mods[j].parent_view() {
            None => Some(None),
            Some(p) => Some(Some(p + sep_seq() + s)),
        },
    }
}

/// Resolution of `s` within `fuel` steps: `Some(Some(fqn))` when it reaches
/// a root module, `Some(None)` when it reaches an unknown module, and `None`
/// when `fuel` steps do not settle it (a longer, possibly circular, parent
/// chain).
pub open spec fn resolve_fqn(mods: Seq<GraphModule>, s: Seq<char>, fuel: nat) -> Option<
    Option<Seq<char>>,
>
    decreases fuel,
{
    match resolve_step(mods, s) {
        None => Some(None),
        Some(None) => Some(Some(s)),
        Some(Some(next)) => if fuel == 0 {
            None
        } else {
            resolve_fqn(mods, next, (fuel - 1) as nat)
        },
    }
}

proof fn lemma_first_sep_from_found(s: Seq<char>, i: int, j: int)
    requires
        0 <= i <= j,
        j + 1 < s.len(),
        s[j] == ':' && s[j + 1] == ':',
        forall|k: int| i <= k < j ==> !((#[trigger] s[k]) == ':' && s[k + 1] == ':'),
    ensures
        first_sep_from(s, i) == Some(j),
    decreases j - i,
{
    if i < j {
        lemma_first_sep_from_found(s, i + 1, j);
    }
}

proof fn lemma_first_sep_from_none(s: Seq<char>, i: int)
    requires
        0 <= i,
        forall|k: int|
            i <= k && k + 1 < s.len() ==> !((#[trigger] s[k]) == ':' && s[k + 1] == ':'),
    ensures
        first_sep_from(s, i) is None,
    decreases s.len() - i,
{
    if i + 1 < s.len() {
        lemma_first_sep_from_none(s, i + 1);
    }
}

proof fn lemma_find_module_from_found(mods: Seq<GraphModule>, nm: Seq<char>, i: int, j: int)
    requires
        0 <= i <= j < mods.len(),
        mods[j].name@ == nm,
        forall|k: int| i <= k < j ==> (#[trigger] mods[k]).name@ != nm,
    ensures
        find_module_from(mods, nm, i) == Some(j),
    decreases j - i,
{
    if i < j {
        lemma_find_module_from_found(mods, nm, i + 1, j);
    }
}

proof fn lemma_find_module_from_none(mods: Seq<GraphModule>, nm: Seq<char>, i: int)
    requires
        0 <= i,
        forall|k: int| i <= k < mods.len() ==> (#[trigger] mods[k]).name@ != nm,
    ensures
        find_module_from(mods, nm, i) is None,
    decreases mods.len() - i,
{
    if i < mods.len() {
        lemma_find_module_from_none(mods, nm, i + 1);
    }
}

/// Character-for-character equality of two string slices.
fn str_eq(a: &str, b: &str) -> (r: bool)
    ensures
        r == (a@ == b@),
{
    let la = a.unicode_len();
    let lb = b.unicode_len();
    if la != lb {
        proof {
            assert(a@.len() != b@.len());
        }
        return false;
    }
    let mut i: usize = 0;
    while i < la
        invariant
            la == a@.len() && la == b@.len(),
            i <= la,
            forall|k: int| 0 <= k < i ==> a@[k] == b@[k],
        decreases la - i,
    {
        if a.get_char(i) != b.get_char(i) {
            return false;
        }
        i = i + 1;
    }
    proof {
        assert(a@ =~= b@);
    }
    true
}

/// The position of the first `::` in `s`, if any.
fn find_sep(s: &str) -> (r: Option<usize>)
    ensures
        match r {
            Some(i) => first_sep_from(s@, 0) == Some(i as int) && i + 1 < s@.len(),
            None => first_sep_from(s@, 0) is None,
        },
{
    let n = s.unicode_len();
    if n < 2 {
        proof {
            lemma_first_sep_from_none(s@, 0);
        }
        return None;
    }
    let mut i: usize = 0;
    while i + 1 < n
        invariant
            n == s@.len(),
            2 <= n,
            i < n,
            forall|k: int| 0 <= k < i ==> !((#[trigger] s@[k]) == ':' && s@[k + 1] == ':'),
        decreases n - i,
    {
        if s.get_char(i) == ':' && s.get_char(i + 1) == ':' {
            proof {
                lemma_first_sep_from_found(s@, 0, i as int);
            }
            return Some(i);
        }
        i = i + 1;
    }
    proof {
        lemma_first_sep_from_none(s@, 0);
    }
    None
}

/// The index of the first module in `modules` named `nm`, if any.
fn find_module_idx(modules: &Vec<GraphModule>, nm: &str) -> (r: Option<usize>)
    ensures
        match r {
            Some(j) => find_module_from(modules@, nm@, 0) == Some(j as int) && j < modules@.len(),
            None => find_module_from(modules@, nm@, 0) is None,
        },
{
    let n = modules.len();
    let mut i: usize = 0;
    while i < n
        invariant
            n == modules@.len(),
            i <= n,
            forall|k: int| 0 <= k < i ==> (#[trigger] modules@[k]).name@ != nm@,
        decreases n - i,
    {
        if str_eq(modules[i].name.as_str(), nm) {
            proof {
                lemma_find_module_from_found(modules@, nm@, 0, i as int);
            }
            return Some(i);
        }
        i = i + 1;
    }
    proof {
        lemma_find_module_from_none(modules@, nm@, 0);
    }
    None
}

/// Resolve `name` to its fully qualified form by prefixing parent module
/// names until a root module is reached.
///
/// The first segment of the (partially resolved) name must always name a
/// known module; otherwise resolution fails. A parent chain longer than the
/// number of modules must revisit one and would never settle; such chains
/// are reported as circular rather than walked forever.
pub fn name_to_fqn(name: &str, modules: &Vec<GraphModule>) -> (r: Result<String, NameError>)
    ensures
        match r {
            Ok(s) => exists|fuel: nat| resolve_fqn(modules@, name@, fuel) == Some(Some(s@)),
            Err(e) => {
                ||| (e == NameError::UnknownModule && exists|fuel: nat|
                    resolve_fqn(modules@, name@, fuel) == Some(None::<Seq<char>>))
                ||| (e == NameError::CircularModules && resolve_fqn(
                    modules@,
                    name@,
                    modules@.len() as nat,
                ) is None)
            },
        },
{
    let mut ret = String::from_str(name);
    let mut fuel_left: usize = modules.len();
    let ghost mut steps: nat = 0;
    loop
        invariant
            steps + fuel_left == modules@.len(),
            forall|f: nat| resolve_fqn(modules@, name@, (f + steps) as nat) == resolve_fqn(
                modules@,
                ret@,
                f,
            ),
        decreases fuel_left,
    {
        let seg_idx = match find_sep(ret.as_str()) {
            Some(i) => {
                let seg = ret.as_str().substring_char(0, i);
                find_module_idx(modules, seg)
            },
            None => find_module_idx(modules, ret.as_str()),
        };
        proof {
            assert(match seg_idx {
                Some(j) => find_module_from(modules@, first_segment(ret@), 0) == Some(j as int),
                None => find_module_from(modules@, first_segment(ret@), 0) is None,
            });
        }
        match seg_idx {
            None => {
                proof {
                    assert(resolve_fqn(modules@, ret@, 0) == Some(None::<Seq<char>>));
                    assert(resolve_fqn(modules@, name@, (0 + steps) as nat) == resolve_fqn(
                        modules@,
                        ret@,
                        0,
                    ));
                }
                return Err(NameError::UnknownModule);
            },
            Some(j) => {
                match &modules[j].parent {
                    Some(p) => {
                        let ghost old_ret = ret@;
                        if fuel_left == 0 {
                            proof {
                                assert(resolve_step(modules@, ret@) matches Some(Some(_)));
                                assert(resolve_fqn(modules@, ret@, 0) is None);
                                assert(resolve_fqn(modules@, name@, (0 + steps) as nat)
                                    == resolve_fqn(modules@, ret@, 0));
                            }
                            return Err(NameError::CircularModules);
                        }
                        fuel_left = fuel_left - 1;
                        let mut t = String::from_str(p.as_str());
                        t.append("::");
                        t.append(ret.as_str());
                        ret = t;
                        proof {
                            reveal_strlit("::");
                            assert("::"@ =~= sep_seq());
                            assert(ret@ == modules@[j as int].parent_view().unwrap() + sep_seq()
                                + old_ret);
                            assert(resolve_step(modules@, old_ret) == Some(Some(ret@)));
                            steps = steps + 1;
                            assert forall|f: nat|
                                resolve_fqn(modules@, name@, (f + steps) as nat) == resolve_fqn(
                                    modules@,
                                    ret@,
                                    f,
                                ) by {
                                assert(resolve_fqn(modules@, name@, ((f + 1) + (steps - 1)) as nat)
                                    == resolve_fqn(modules@, old_ret, (f + 1) as nat));
                                assert(resolve_fqn(modules@, old_ret, (f + 1) as nat)
                                    == resolve_fqn(modules@, ret@, f));
                            }
                        }
                    },
                    None => {
                        proof {
                            assert(resolve_step(modules@, ret@) == Some(None::<Seq<char>>));
                            assert(resolve_fqn(modules@, ret@, 0) == Some(Some(ret@)));
                            assert(resolve_fqn(modules@, name@, (0 + steps) as nat) == resolve_fqn(
                                modules@,
                                ret@,
                                0,
                            ));
                        }
                        return Ok(ret);
                    },
                }
            },
        }
    }
}

} // verus!
