//! The parameters that tell one compiled variant of a shader or a pipeline from another.

use vstd::prelude::*;
use vstd::std_specs::cmp::PartialEqSpecImpl;
use crate::text_order::{
    TextOrder, ascending, lemma_ascending_listing_unique, lemma_ascending_no_duplicates,
    lemma_listing, lemma_text_irreflexive, lemma_text_transitive, listing, text_before, text_order,
};

verus! {

/// How the vertices of a draw call are assembled into primitives.
#[derive(Clone, Copy, Debug, PartialEq, Eq, Hash, Structural)]
pub enum PrimitiveTopology {
    PointList,
    LineList,
    LineStrip,
    TriangleList,
    TriangleStrip,
}

impl Default for PrimitiveTopology {
    fn default() -> (topology: PrimitiveTopology)
        ensures
            topology == PrimitiveTopology::TriangleList,
    {
        PrimitiveTopology::TriangleList
    }
}

/// The listing of `defs` by the text of each define.
pub open spec fn texts(defs: Seq<String>) -> Seq<Seq<char>> {
    defs.map_values(|def: String| def@)
}

/// A set of shader defines. The defines are kept in ascending order, each once, so two
/// specializations that hold the same defines list them alike, however they were
/// filled; two specializations are equal when they hold the same defines. The listing
/// is what the compile service is handed.
#[derive(Debug)]
pub struct ShaderSpecialization {
    shader_defs: Vec<String>,
}

impl View for ShaderSpecialization {
    type V = Set<Seq<char>>;

    open spec fn view(&self) -> Set<Seq<char>> {
        self.defines().to_set()
    }
}

/// `list` with `text` put in at `place`.
pub open spec fn put_in(list: Seq<Seq<char>>, place: int, text: Seq<char>) -> Seq<Seq<char>> {
    list.insert(place, text)
}

/// A text that stands between what comes before it and what comes after it keeps an
/// ascending listing ascending, and adds itself to what is listed.
pub proof fn lemma_put_in_ascending(list: Seq<Seq<char>>, place: int, text: Seq<char>)
    requires
        ascending(list),
        0 <= place <= list.len(),
        forall|k: int| 0 <= k < place ==> text_before(#[trigger] list[k], text),
        forall|k: int| place <= k < list.len() ==> text_before(text, #[trigger] list[k]),
    ensures
        ascending(put_in(list, place, text)),
        put_in(list, place, text).to_set() == list.to_set().insert(text),
        !list.to_set().contains(text),
{
    let grown = put_in(list, place, text);
    assert forall|i: int, j: int| 0 <= i < j < grown.len() implies text_before(
        #[trigger] grown[i],
        #[trigger] grown[j],
    ) by {
        if j < place {
            assert(text_before(list[i], list[j]));
        } else if j == place {
            assert(text_before(list[i], text));
        } else if i < place {
            assert(text_before(list[i], list[j - 1]));
        } else if i == place {
            assert(text_before(text, list[j - 1]));
        } else {
            assert(text_before(list[i - 1], list[j - 1]));
        }
    }
    assert forall|other: Seq<char>| grown.to_set().contains(other) <==> list.to_set().insert(
        text,
    ).contains(other) by {
        if grown.to_set().contains(other) {
            let i = choose|i: int| 0 <= i < grown.len() && grown[i] == other;
            if i < place {
                assert(list[i] == other);
                assert(list.to_set().contains(list[i]));
            } else if i > place {
                assert(list[i - 1] == other);
                assert(list.to_set().contains(list[i - 1]));
            }
        }
        if other == text {
            assert(grown[place] == other);
        } else if list.to_set().contains(other) {
            let k = choose|k: int| 0 <= k < list.len() && list[k] == other;
            if k < place {
                assert(grown[k] == other);
            } else {
                assert(grown[k + 1] == other);
            }
        }
    }
    assert(grown.to_set() =~= list.to_set().insert(text));
    if list.to_set().contains(text) {
        let k = choose|k: int| 0 <= k < list.len() && list[k] == text;
        lemma_text_irreflexive(text);
        if k < place {
            assert(text_before(list[k], text));
        } else {
            assert(text_before(text, list[k]));
        }
    }
}

/// Two specializations that hold the same defines hand the compile service the same
/// list: the ascending listing of a set of defines is a function of the set.
pub proof fn lemma_define_list_determined(first: ShaderSpecialization, second: ShaderSpecialization)
    requires
        ascending(first.defines()),
        ascending(second.defines()),
        first@ == second@,
    ensures
        first.defines() == second.defines(),
{
    lemma_ascending_listing_unique(first.defines(), second.defines());
}

impl ShaderSpecialization {
    /// The defines in ascending order.
    pub closed spec fn defines(&self) -> Seq<Seq<char>> {
        texts(self.shader_defs@)
    }

    /// What holds of every specialization: its listing is ascending.
    #[verifier::type_invariant]
    pub open spec fn in_order(&self) -> bool {
        ascending(self.defines())
    }

    /// No define occurs twice in the listing, so the listing is as long as the set is large.
    pub proof fn lemma_defines_distinct(&self)
        requires
            self.defines().no_duplicates(),
        ensures
            self@.finite(),
            self@.len() == self.defines().len(),
    {
        self.defines().unique_seq_to_set();
    }

    /// The specialization without any define.
    pub fn new() -> (specialization: ShaderSpecialization)
        ensures
            specialization.defines() == Seq::<Seq<char>>::empty(),
            specialization@ == Set::<Seq<char>>::empty(),
    {
        let specialization = ShaderSpecialization { shader_defs: Vec::new() };
        assert(specialization.defines() =~= Seq::<Seq<char>>::empty());
        assert(specialization@ =~= Set::<Seq<char>>::empty());
        specialization
    }

    /// Where `def` stands in the listing, and whether it is there: every define before
    /// that place comes before `def`; `def` is at that place, or every define from
    /// there on comes after it.
    fn place_of(&self, def: &String) -> (place: (usize, bool))
        ensures
            place.0 <= self.defines().len(),
            forall|k: int| 0 <= k < place.0 ==> text_before(#[trigger] self.defines()[k], def@),
            place.1 ==> place.0 < self.defines().len() && self.defines()[place.0 as int] == def@,
            !place.1 ==> forall|k: int|
                place.0 <= k < self.defines().len() ==> text_before(
                    def@,
                    #[trigger] self.defines()[k],
                ),
    {
        proof {
            use_type_invariant(self);
        }
        let mut i: usize = 0;
        while i < self.shader_defs.len()
            invariant
                i <= self.shader_defs.len(),
                ascending(self.defines()),
                forall|k: int| 0 <= k < i ==> text_before(#[trigger] self.defines()[k], def@),
            decreases self.shader_defs.len() - i,
        {
            match text_order(&self.shader_defs[i], def) {
                TextOrder::Before => {
                    assert(self.defines()[i as int] == self.shader_defs@[i as int]@);
                },
                TextOrder::Same => {
                    assert(self.defines()[i as int] == def@);
                    return (i, true);
                },
                TextOrder::After => {
                    assert forall|k: int| i <= k < self.defines().len() implies text_before(
                        def@,
                        #[trigger] self.defines()[k],
                    ) by {
                        assert(self.defines()[i as int] == self.shader_defs@[i as int]@);
                        if k > i {
                            assert(text_before(self.defines()[i as int], self.defines()[k]));
                            lemma_text_transitive(def@, self.defines()[i as int], self.defines()[k]);
                        }
                    }
                    return (i, false);
                },
            }
            i += 1;
        }
        (i, false)
    }

    /// Whether `def` is one of the defines.
    pub fn contains(&self, def: &String) -> (found: bool)
        ensures
            found == self@.contains(def@),
    {
        let mut i: usize = 0;
        while i < self.shader_defs.len()
            invariant
                i <= self.shader_defs.len(),
                forall|k: int| 0 <= k < i ==> self.defines()[k] != def@,
            decreases self.shader_defs.len() - i,
        {
            if self.shader_defs[i] == *def {
                assert(self.defines()[i as int] == def@);
                return true;
            }
            i += 1;
        }
        false
    }

    /// Adds `def` unless it is there already, and says whether it was added. The listing
    /// stays ascending, which fixes where `def` stands in it.
    pub fn insert(&mut self, def: String) -> (added: bool)
        ensures
            added == !old(self)@.contains(def@),
            final(self)@ == old(self)@.insert(def@),
            ascending(final(self).defines()),
            final(self).defines() == listing(final(self)@),
            final(self).defines().no_duplicates(),
            !added ==> final(self).defines() == old(self).defines(),
            added ==> exists|place: int|
                0 <= place <= old(self).defines().len() && final(self).defines() == #[trigger] put_in(
                    old(self).defines(),
                    place,
                    def@,
                ),
    {
        proof {
            use_type_invariant(&*self);
            lemma_ascending_no_duplicates(self.defines());
        }
        let place = self.place_of(&def);
        if place.1 {
            assert(self@.contains(self.defines()[place.0 as int]));
            assert(self@.insert(def@) =~= self@);
            proof {
                lemma_listing(self.defines());
            }
            false
        } else {
            let ghost before = self.defines();
            let mut defs: Vec<String> = Vec::new();
            core::mem::swap(&mut self.shader_defs, &mut defs);
            defs.insert(place.0, def);
            proof {
                assert(texts(defs@) =~= put_in(before, place.0 as int, def@));
                lemma_put_in_ascending(before, place.0 as int, def@);
                lemma_ascending_no_duplicates(texts(defs@));
                lemma_listing(texts(defs@));
            }
            self.shader_defs = defs;
            true
        }
    }

    /// Removes every define.
    pub fn clear(&mut self)
        ensures
            final(self).defines() == Seq::<Seq<char>>::empty(),
            final(self)@ == Set::<Seq<char>>::empty(),
    {
        self.shader_defs = Vec::new();
        assert(self.defines() =~= Seq::<Seq<char>>::empty());
        assert(self@ =~= Set::<Seq<char>>::empty());
    }

    /// The number of defines.
    pub fn len(&self) -> (count: usize)
        ensures
            count == self.defines().len(),
            count == self@.len(),
            self@.finite(),
    {
        proof {
            use_type_invariant(self);
            lemma_ascending_no_duplicates(self.defines());
            self.lemma_defines_distinct();
        }
        self.shader_defs.len()
    }

    /// Whether there is no define.
    pub fn is_empty(&self) -> (empty: bool)
        ensures
            empty == (self@ == Set::<Seq<char>>::empty()),
    {
        proof {
            if self.defines().len() > 0 {
                assert(self@.contains(self.defines()[0]));
            } else {
                assert(self@ =~= Set::<Seq<char>>::empty());
            }
        }
        self.shader_defs.len() == 0
    }

    /// The defines as the ordered list that is handed to the compile service: in
    /// ascending order, each once. The list is a function of the set of defines.
    pub fn define_list(&self) -> (list: Vec<String>)
        ensures
            texts(list@) == self.defines(),
            texts(list@) == listing(self@),
            ascending(texts(list@)),
            texts(list@).no_duplicates(),
            texts(list@).to_set() == self@,
    {
        proof {
            use_type_invariant(self);
            lemma_ascending_no_duplicates(self.defines());
            lemma_listing(self.defines());
        }
        let mut list: Vec<String> = Vec::new();
        let mut i: usize = 0;
        while i < self.shader_defs.len()
            invariant
                i <= self.shader_defs.len(),
                list@.len() == i,
                forall|k: int| 0 <= k < i ==> list@[k]@ == self.defines()[k],
            decreases self.shader_defs.len() - i,
        {
            list.push(self.shader_defs[i].clone());
            i += 1;
        }
        assert(texts(list@) =~= self.defines());
        list
    }

    /// Whether every define of `self` is a define of `other`.
    pub fn is_subset_of(&self, other: &ShaderSpecialization) -> (subset: bool)
        ensures
            subset == self@.subset_of(other@),
    {
        let mut i: usize = 0;
        while i < self.shader_defs.len()
            invariant
                i <= self.shader_defs.len(),
                forall|k: int| 0 <= k < i ==> other@.contains(self.defines()[k]),
            decreases self.shader_defs.len() - i,
        {
            if !other.contains(&self.shader_defs[i]) {
                assert(self@.contains(self.defines()[i as int]));
                return false;
            }
            i += 1;
        }
        assert forall|text: Seq<char>| self@.contains(text) implies other@.contains(text) by {
            let k = choose|k: int| 0 <= k < self.defines().len() && self.defines()[k] == text;
            assert(other@.contains(self.defines()[k]));
        }
        true
    }
}

impl Default for ShaderSpecialization {
    fn default() -> (specialization: ShaderSpecialization)
        ensures
            specialization@ == Set::<Seq<char>>::empty(),
    {
        ShaderSpecialization::new()
    }
}

impl Clone for ShaderSpecialization {
    fn clone(&self) -> (copy: ShaderSpecialization)
        ensures
            copy.defines() == self.defines(),
            copy@ == self@,
    {
        proof {
            use_type_invariant(self);
        }
        let list = self.define_list();
        ShaderSpecialization { shader_defs: list }
    }
}

impl PartialEq for ShaderSpecialization {
    fn eq(&self, other: &ShaderSpecialization) -> (equal: bool) {
        let equal = self.is_subset_of(other) && other.is_subset_of(self);
        assert(equal == (self@ =~= other@));
        equal
    }
}

impl Eq for ShaderSpecialization {

}

impl PartialEqSpecImpl for ShaderSpecialization {
    open spec fn obeys_eq_spec() -> bool {
        true
    }

    open spec fn eq_spec(&self, other: &ShaderSpecialization) -> bool {
        self@ == other@
    }
}

/// What selects one compiled variant of a pipeline: the shader defines and the topology.
#[derive(Debug)]
pub struct PipelineSpecialization {
    pub shader_specialization: ShaderSpecialization,
    pub primitive_topology: PrimitiveTopology,
}

/// Mathematical value of a [`PipelineSpecialization`].
pub struct PipelineSpecializationView {
    pub shader_defs: Set<Seq<char>>,
    pub primitive_topology: PrimitiveTopology,
}

impl View for PipelineSpecialization {
    type V = PipelineSpecializationView;

    open spec fn view(&self) -> PipelineSpecializationView {
        PipelineSpecializationView {
            shader_defs: self.shader_specialization@,
            primitive_topology: self.primitive_topology,
        }
    }
}

impl PipelineSpecialization {
    /// The value of the default specialization: no define, and triangle lists.
    pub open spec fn default_view() -> PipelineSpecializationView {
        PipelineSpecializationView {
            shader_defs: Set::<Seq<char>>::empty(),
            primitive_topology: PrimitiveTopology::TriangleList,
        }
    }
}

impl Default for PipelineSpecialization {
    fn default() -> (specialization: PipelineSpecialization)
        ensures
            specialization@ == PipelineSpecialization::default_view(),
    {
        PipelineSpecialization {
            shader_specialization: ShaderSpecialization::new(),
            primitive_topology: PrimitiveTopology::TriangleList,
        }
    }
}

impl Clone for PipelineSpecialization {
    fn clone(&self) -> (copy: PipelineSpecialization)
        ensures
            copy@ == self@,
            copy.shader_specialization.defines() == self.shader_specialization.defines(),
    {
        PipelineSpecialization {
            shader_specialization: self.shader_specialization.clone(),
            primitive_topology: self.primitive_topology,
        }
    }
}

impl PartialEq for PipelineSpecialization {
    fn eq(&self, other: &PipelineSpecialization) -> (equal: bool) {
        self.shader_specialization == other.shader_specialization && self.primitive_topology
            == other.primitive_topology
    }
}

impl Eq for PipelineSpecialization {

}

impl PartialEqSpecImpl for PipelineSpecialization {
    open spec fn obeys_eq_spec() -> bool {
        true
    }

    open spec fn eq_spec(&self, other: &PipelineSpecialization) -> bool {
        self@ == other@
    }
}

} // verus!
