//! The skill and tool registries.
use vstd::prelude::*;
use crate::keyed::{Keyed, Registry, sorted_keys, lists_in_order, law_listing_is_determined};
use crate::skills::{SkillSpec, SkillStoreItem};
use crate::text::{chars_of, concat_chars, string_from_chars};

verus! {

/// A registered skill and the file it was loaded from, if any.
#[derive(Debug, Clone)]
pub struct SkillRegistryEntry {
    pub spec: SkillSpec,
    pub source_path: Option<String>,
}

impl Keyed for SkillRegistryEntry {
    open spec fn key_of(&self) -> Seq<char> {
        self.spec.name@
    }

    fn key(&self) -> (k: &String) {
        &self.spec.name
    }
}

/// Why a registration was refused.
#[derive(Debug, Clone)]
pub enum RegistryError {
    /// A skill with this name is already registered.
    SkillAlreadyRegistered { name: String },
    /// A tool with this name is already registered.
    ToolAlreadyRegistered { name: String },
}

/// The message of a [`RegistryError`].
pub open spec fn registry_error_text(e: RegistryError) -> Seq<char> {
    match e {
        RegistryError::SkillAlreadyRegistered { name } => "skill already registered: "@ + name@,
        RegistryError::ToolAlreadyRegistered { name } => "tool already registered: "@ + name@,
    }
}

impl RegistryError {
    /// The error's message.
    pub fn message(&self) -> (m: String)
        ensures
            m@ == registry_error_text(*self),
    {
        let (head, name): (&str, &String) = match self {
            RegistryError::SkillAlreadyRegistered { name } => ("skill already registered: ", name),
            RegistryError::ToolAlreadyRegistered { name } => ("tool already registered: ", name),
        };
        string_from_chars(&concat_chars(&chars_of(head), &chars_of(name.as_str())))
    }
}

/// The registered skills, by name.
#[derive(Clone)]
pub struct SkillRegistry {
    skills: Registry<SkillRegistryEntry>,
}

impl View for SkillRegistry {
    type V = Map<Seq<char>, SkillRegistryEntry>;

    /// The registered skills by name.
    closed spec fn view(&self) -> Map<Seq<char>, SkillRegistryEntry> {
        self.skills@
    }
}

impl SkillRegistry {
    /// The registry keeps one entry per name, in name order.
    pub closed spec fn wf(&self) -> bool {
        self.skills.wf()
    }

    /// An empty registry.
    pub fn new() -> (r: SkillRegistry)
        ensures
            r.wf(),
            r@ == Map::<Seq<char>, SkillRegistryEntry>::empty(),
    {
        SkillRegistry { skills: Registry::new() }
    }

    /// Registers `entry` under its skill's name; a name that is taken is refused and the
    /// registry is left unchanged.
    pub fn register(&mut self, entry: SkillRegistryEntry) -> (r: Result<(), RegistryError>)
        requires
            old(self).wf(),
        ensures
            final(self).wf(),
            old(self)@.dom().contains(entry.spec.name@) ==> (r matches Err(
                RegistryError::SkillAlreadyRegistered { name },
            ) && name@ == entry.spec.name@ && final(self)@ == old(self)@),
            !old(self)@.dom().contains(entry.spec.name@) ==> r is Ok && final(self)@ == old(
                self,
            )@.insert(entry.spec.name@, entry),
    {
        match self.skills.register(entry) {
            Ok(()) => Ok(()),
            Err(e) => {
                let name = string_from_chars(&chars_of(e.spec.name.as_str()));
                Err(RegistryError::SkillAlreadyRegistered { name })
            },
        }
    }

    /// Removes and returns the skill named `name`, if there is one.
    pub fn unregister(&mut self, name: &str) -> (r: Option<SkillRegistryEntry>)
        requires
            old(self).wf(),
        ensures
            final(self).wf(),
            final(self)@ == old(self)@.remove(name@),
            r == (if old(self)@.dom().contains(name@) {
                Some(old(self)@[name@])
            } else {
                None
            }),
    {
        self.skills.unregister(name)
    }

    /// The skill named `name`, if there is one.
    pub fn get(&self, name: &str) -> (r: Option<&SkillRegistryEntry>)
        requires
            self.wf(),
        ensures
            r == (if self@.dom().contains(name@) {
                Some(&self@[name@])
            } else {
                None
            }),
            r matches Some(e) ==> e.spec.name@ == name@,
    {
        self.skills.get(name)
    }

    /// All skills, in increasing name order.
    pub fn list(&self) -> (r: Vec<&SkillRegistryEntry>)
        requires
            self.wf(),
        ensures
            sorted_keys(r@.map_values(|e: &SkillRegistryEntry| *e)),
            forall|i: int| 0 <= i < r@.len() ==> self@.dom().contains(#[trigger] r@[i].spec.name@)
                && self@[r@[i].spec.name@] == *r@[i],
            forall|k: Seq<char>| #[trigger] self@.dom().contains(k) ==> exists|i: int|
                0 <= i < r@.len() && r@[i].spec.name@ == k,
            lists_in_order(r@.map_values(|e: &SkillRegistryEntry| *e), self@),
    {
        let r = self.skills.list();
        assert forall|i: int| 0 <= i < r@.len() implies self@.dom().contains(
            #[trigger] r@[i].spec.name@,
        ) && self@[r@[i].spec.name@] == *r@[i] by {
            assert(r@[i].key_of() == r@[i].spec.name@);
        }
        assert forall|k: Seq<char>| #[trigger] self@.dom().contains(k) implies exists|i: int|
            0 <= i < r@.len() && r@[i].spec.name@ == k by {
            let i = choose|i: int| 0 <= i < r@.len() && r@[i].key_of() == k;
            assert(r@[i].spec.name@ == k);
        }
        r
    }
}

/// The registry entry of a loaded skill: its spec and the file it came from.
pub open spec fn entry_of(item: SkillStoreItem) -> SkillRegistryEntry {
    SkillRegistryEntry { spec: item.spec, source_path: Some(item.path) }
}

/// No two of `items` share a skill name.
pub open spec fn distinct_names(items: Seq<SkillStoreItem>) -> bool {
    forall|i: int, j: int|
        0 <= i < j < items.len() ==> #[trigger] items[i].spec.name@ != #[trigger] items[j].spec.name@
}

/// Registers every loaded skill, in order. The registry holds each item's entry under its
/// name; the first item whose name an earlier item already took is refused.
pub fn load_skills_registry(items: Vec<SkillStoreItem>) -> (r: Result<SkillRegistry, RegistryError>)
    ensures
        r is Ok <==> distinct_names(items@),
        r matches Ok(reg) ==> {
            &&& reg.wf()
            &&& forall|k: Seq<char>| #[trigger] reg@.dom().contains(k) <==> exists|i: int|
                0 <= i < items@.len() && items@[i].spec.name@ == k
            &&& forall|i: int| 0 <= i < items@.len() ==> reg@[#[trigger] items@[i].spec.name@]
                == entry_of(items@[i])
        },
        r matches Err(e) ==> exists|j: int|
            {
                &&& 0 <= j < items@.len()
                &&& distinct_names(items@.take(j))
                &&& exists|i: int| 0 <= i < j && items@[i].spec.name@ == items@[j].spec.name@
                &&& e matches RegistryError::SkillAlreadyRegistered { name }
                &&& name@ == #[trigger] items@[j].spec.name@
            },
{
    let ghost all = items@;
    let mut reg = SkillRegistry::new();
    for item in it: items
        invariant
            it.seq() == all,
            reg.wf(),
            distinct_names(all.take(it.index() as int)),
            forall|k: Seq<char>| #[trigger] reg@.dom().contains(k) <==> exists|i: int|
                0 <= i < it.index() && all[i].spec.name@ == k,
            forall|i: int| 0 <= i < it.index() ==> reg@[#[trigger] all[i].spec.name@] == entry_of(
                all[i],
            ),
    {
        let ghost n = it.index() as int;
        let ghost before = reg@;
        let SkillStoreItem { path, spec } = item;
        let entry = SkillRegistryEntry { spec, source_path: Some(path) };
        assert(entry == entry_of(all[n]));
        match reg.register(entry) {
            Ok(()) => {
                assert(distinct_names(all.take(n + 1))) by {
                    assert forall|i: int, j: int| 0 <= i < j < n + 1 implies #[trigger] all.take(
                        n + 1,
                    )[i].spec.name@ != #[trigger] all.take(n + 1)[j].spec.name@ by {
                        if j == n {
                            assert(before.dom().contains(all[i].spec.name@));
                        } else {
                            assert(all.take(n)[i] == all[i] && all.take(n)[j] == all[j]);
                        }
                    }
                }
                assert forall|i: int| 0 <= i < n + 1 implies reg@[#[trigger] all[i].spec.name@]
                    == entry_of(all[i]) by {
                    if i < n {
                        assert(all[i].spec.name@ != all[n].spec.name@) by {
                            assert(before.dom().contains(all[i].spec.name@));
                        }
                    }
                }
            },
            Err(e) => {
                assert(exists|i: int| 0 <= i < n && all[i].spec.name@ == all[n].spec.name@);
                return Err(e);
            },
        }
    }
    assert(all.take(all.len() as int) =~= all);
    Ok(reg)
}

/// `serde_json::Value`, a JSON value; opaque here (a tool's parameter schema).
#[verifier::external_type_specification]
#[verifier::external_body]
pub struct ExJsonValue(serde_json::Value);

/// A tool: its name, a description, the JSON schema of its arguments and the handler
/// that runs it.
pub struct Tool<H> {
    pub name: String,
    pub description: String,
    pub parameters: serde_json::Value,
    pub handler: H,
}

impl<H> Keyed for Tool<H> {
    open spec fn key_of(&self) -> Seq<char> {
        self.name@
    }

    fn key(&self) -> (k: &String) {
        &self.name
    }
}

/// The registered tools, by name.
pub struct ToolRegistry<H> {
    tools: Registry<Tool<H>>,
}

impl<H> View for ToolRegistry<H> {
    type V = Map<Seq<char>, Tool<H>>;

    /// The registered tools by name.
    closed spec fn view(&self) -> Map<Seq<char>, Tool<H>> {
        self.tools@
    }
}

/// `name` is one of the names in `allow`.
pub open spec fn allowed_name(allow: Seq<String>, name: Seq<char>) -> bool {
    exists|i: int| 0 <= i < allow.len() && #[trigger] allow[i]@ == name
}

pub(crate) fn allowed_tool_name(allow: &[String], name: &Vec<char>) -> (b: bool)
    ensures
        b == allowed_name(allow@, name@),
{
    let mut i: usize = 0;
    while i < allow.len()
        invariant
            i <= allow@.len(),
            forall|m: int| 0 <= m < i ==> #[trigger] allow@[m]@ != name@,
        decreases allow.len() - i,
    {
        if crate::text::chars_eq(&chars_of(allow[i].as_str()), name) {
            return true;
        }
        i += 1;
    }
    false
}

impl<H> ToolRegistry<H> {
    /// The registry keeps one tool per name, in name order.
    pub closed spec fn wf(&self) -> bool {
        self.tools.wf()
    }

    /// An empty registry.
    pub fn new() -> (r: ToolRegistry<H>)
        ensures
            r.wf(),
            r@ == Map::<Seq<char>, Tool<H>>::empty(),
    {
        ToolRegistry { tools: Registry::new() }
    }

    /// Registers `tool` under its name; a name that is taken is refused and the registry
    /// is left unchanged.
    pub fn register(&mut self, tool: Tool<H>) -> (r: Result<(), RegistryError>)
        requires
            old(self).wf(),
        ensures
            final(self).wf(),
            old(self)@.dom().contains(tool.name@) ==> (r matches Err(
                RegistryError::ToolAlreadyRegistered { name },
            ) && name@ == tool.name@ && final(self)@ == old(self)@),
            !old(self)@.dom().contains(tool.name@) ==> r is Ok && final(self)@ == old(
                self,
            )@.insert(tool.name@, tool),
    {
        match self.tools.register(tool) {
            Ok(()) => Ok(()),
            Err(t) => {
                let name = string_from_chars(&chars_of(t.name.as_str()));
                Err(RegistryError::ToolAlreadyRegistered { name })
            },
        }
    }

    /// Removes and returns the tool named `name`, if there is one.
    pub fn unregister(&mut self, name: &str) -> (r: Option<Tool<H>>)
        requires
            old(self).wf(),
        ensures
            final(self).wf(),
            final(self)@ == old(self)@.remove(name@),
            r == (if old(self)@.dom().contains(name@) {
                Some(old(self)@[name@])
            } else {
                None
            }),
    {
        self.tools.unregister(name)
    }

    /// The tool named `name`, if there is one.
    pub fn get(&self, name: &str) -> (r: Option<&Tool<H>>)
        requires
            self.wf(),
        ensures
            r == (if self@.dom().contains(name@) {
                Some(&self@[name@])
            } else {
                None
            }),
            r matches Some(t) ==> t.name@ == name@,
    {
        self.tools.get(name)
    }

    /// All tools, in increasing name order.
    pub fn list(&self) -> (r: Vec<&Tool<H>>)
        requires
            self.wf(),
        ensures
            sorted_keys(r@.map_values(|t: &Tool<H>| *t)),
            forall|i: int| 0 <= i < r@.len() ==> self@.dom().contains(#[trigger] r@[i].name@)
                && self@[r@[i].name@] == *r@[i],
            forall|k: Seq<char>| #[trigger] self@.dom().contains(k) ==> exists|i: int|
                0 <= i < r@.len() && r@[i].name@ == k,
            lists_in_order(r@.map_values(|t: &Tool<H>| *t), self@),
    {
        let r = self.tools.list();
        assert forall|i: int| 0 <= i < r@.len() implies self@.dom().contains(
            #[trigger] r@[i].name@,
        ) && self@[r@[i].name@] == *r@[i] by {
            assert(r@[i].key_of() == r@[i].name@);
        }
        assert forall|k: Seq<char>| #[trigger] self@.dom().contains(k) implies exists|i: int|
            0 <= i < r@.len() && r@[i].name@ == k by {
            let i = choose|i: int| 0 <= i < r@.len() && r@[i].key_of() == k;
            assert(r@[i].name@ == k);
        }
        r
    }

    /// The tools whose names are in `allowlist`, in increasing name order: what a skill
    /// with that allowlist is offered as function tools.
    pub fn export_openai_tools(&self, allowlist: &[String]) -> (r: Vec<&Tool<H>>)
        requires
            self.wf(),
        ensures
            sorted_keys(r@.map_values(|t: &Tool<H>| *t)),
            forall|i: int| 0 <= i < r@.len() ==> self@.dom().contains(#[trigger] r@[i].name@)
                && self@[r@[i].name@] == *r@[i] && allowed_name(allowlist@, r@[i].name@),
            forall|k: Seq<char>| #[trigger] self@.dom().contains(k) && allowed_name(allowlist@, k)
                ==> exists|i: int| 0 <= i < r@.len() && r@[i].name@ == k,
    {
        let all = self.list();
        let ghost sa = all@.map_values(|t: &Tool<H>| *t);
        let mut r: Vec<&Tool<H>> = Vec::new();
        let ghost mut idx: Seq<int> = seq![];
        let mut i: usize = 0;
        while i < all.len()
            invariant
                i <= all@.len(),
                sa == all@.map_values(|t: &Tool<H>| *t),
                sorted_keys(sa),
                forall|m: int| 0 <= m < all@.len() ==> self@.dom().contains(#[trigger] all@[m].name@)
                    && self@[all@[m].name@] == *all@[m],
                idx.len() == r@.len(),
                forall|q: int| 0 <= q < idx.len() ==> 0 <= #[trigger] idx[q] < i,
                forall|a: int, b: int| 0 <= a < b < idx.len() ==> #[trigger] idx[a] < #[trigger] idx[b],
                forall|q: int| 0 <= q < idx.len() ==> *r@[q] == *all@[#[trigger] idx[q]],
                forall|q: int| 0 <= q < r@.len() ==> allowed_name(allowlist@, #[trigger] r@[q].name@),
                forall|m: int| 0 <= m < i && allowed_name(allowlist@, #[trigger] all@[m].name@)
                    ==> exists|q: int| 0 <= q < idx.len() && idx[q] == m,
            decreases all.len() - i,
        {
            let t = all[i];
            let name = chars_of(t.name.as_str());
            let ghost old_idx = idx;
            if allowed_tool_name(allowlist, &name) {
                r.push(t);
                proof {
                    idx = idx.push(i as int);
                    assert(idx[idx.len() - 1] == i);
                }
            }
            proof {
                assert forall|m: int| 0 <= m < i + 1 && allowed_name(
                    allowlist@,
                    #[trigger] all@[m].name@,
                ) implies exists|q: int| 0 <= q < idx.len() && idx[q] == m by {
                    if m < i {
                        let q = choose|q: int| 0 <= q < old_idx.len() && old_idx[q] == m;
                        assert(idx[q] == old_idx[q]);
                    } else {
                        assert(idx[idx.len() - 1] == i);
                    }
                }
            }
            i += 1;
        }
        proof {
            let sr = r@.map_values(|t: &Tool<H>| *t);
            assert forall|a: int, b: int| 0 <= a < b < sr.len() implies crate::text::chars_less(
                #[trigger] sr[a].key_of(),
                #[trigger] sr[b].key_of(),
            ) by {
                assert(idx[a] < idx[b]);
                assert(sa[idx[a]] == *all@[idx[a]] && sa[idx[b]] == *all@[idx[b]]);
            }
            assert forall|q: int| 0 <= q < r@.len() implies self@.dom().contains(
                #[trigger] r@[q].name@,
            ) && self@[r@[q].name@] == *r@[q] && allowed_name(allowlist@, r@[q].name@) by {
                assert(*r@[q] == *all@[idx[q]]);
            }
            assert forall|k: Seq<char>| #[trigger] self@.dom().contains(k) && allowed_name(
                allowlist@,
                k,
            ) implies exists|q: int| 0 <= q < r@.len() && r@[q].name@ == k by {
                let m = choose|m: int| 0 <= m < all@.len() && all@[m].name@ == k;
                let q = choose|q: int| 0 <= q < idx.len() && idx[q] == m;
                assert(*r@[q] == *all@[idx[q]]);
            }
        }
        r
    }
}

/// Registering a skill under a free name and then looking the name up gives the entry.
pub proof fn law_register_then_get(
    before: Map<Seq<char>, SkillRegistryEntry>,
    entry: SkillRegistryEntry,
)
    requires
        !before.dom().contains(entry.spec.name@),
    ensures
        before.insert(entry.spec.name@, entry).dom().contains(entry.spec.name@),
        before.insert(entry.spec.name@, entry)[entry.spec.name@] == entry,
{
}

/// Registering a skill under a free name and then unregistering that name restores the
/// registry, and the unregistration hands back the entry.
pub proof fn law_register_then_unregister(
    before: Map<Seq<char>, SkillRegistryEntry>,
    entry: SkillRegistryEntry,
)
    requires
        !before.dom().contains(entry.spec.name@),
    ensures
        before.insert(entry.spec.name@, entry).remove(entry.spec.name@) == before,
        before.insert(entry.spec.name@, entry)[entry.spec.name@] == entry,
{
    assert(before.insert(entry.spec.name@, entry).remove(entry.spec.name@) =~= before);
}

/// Registering another name leaves every other registered skill as it was.
pub proof fn law_register_keeps_others(
    before: Map<Seq<char>, SkillRegistryEntry>,
    entry: SkillRegistryEntry,
    other: Seq<char>,
)
    requires
        other != entry.spec.name@,
    ensures
        before.insert(entry.spec.name@, entry).dom().contains(other) == before.dom().contains(other),
        before.dom().contains(other) ==> before.insert(entry.spec.name@, entry)[other] == before[other],
{
}

/// After unregistering a name, nothing is registered under it.
pub proof fn law_unregister_then_get(before: Map<Seq<char>, SkillRegistryEntry>, name: Seq<char>)
    ensures
        !before.remove(name).dom().contains(name),
{
}

/// Every registered skill is filed under its own name.
pub proof fn law_skills_filed_by_name(r: SkillRegistry)
    ensures
        forall|k: Seq<char>| #[trigger] r@.dom().contains(k) ==> r@[k].spec.name@ == k,
{
    crate::keyed::lemma_keyed_map_keys(r.skills.entries());
}

/// Registering a skill under a free name and then unregistering it gives back the
/// listing from before: the listing in name order is determined by what is registered.
pub proof fn law_register_then_unregister_restores_listing(
    before: Map<Seq<char>, SkillRegistryEntry>,
    entry: SkillRegistryEntry,
    listed_before: Seq<SkillRegistryEntry>,
    listed_after: Seq<SkillRegistryEntry>,
)
    requires
        !before.dom().contains(entry.spec.name@),
        lists_in_order(listed_before, before),
        lists_in_order(listed_after, before.insert(entry.spec.name@, entry).remove(entry.spec.name@)),
    ensures
        listed_after == listed_before,
{
    assert(before.insert(entry.spec.name@, entry).remove(entry.spec.name@) =~= before);
    law_listing_is_determined(listed_after, listed_before, before);
}

} // verus!
