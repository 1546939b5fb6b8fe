use vstd::prelude::*;

verus! {

/// Numeric identifier of a block state; `0` stands for air.
#[derive(Clone, Copy, Debug, PartialEq, Eq, Structural)]
pub struct BlockId {
    pub data: u16,
}

impl BlockId {
    pub open spec fn air() -> BlockId {
        BlockId { data: 0 }
    }

    pub fn from_id(id: u16) -> (r: BlockId)
        ensures
            r.data == id,
    {
        BlockId { data: id }
    }

    pub fn get_id(&self) -> (r: u16)
        ensures
            r == self.data,
    {
        self.data
    }
}

impl Default for BlockId {
    fn default() -> (r: BlockId)
        ensures
            r == BlockId::air(),
    {
        BlockId { data: 0 }
    }
}

/// Block properties as a list of key/value pairs, in the order given.
pub open spec fn props_of(p: Seq<(String, String)>) -> Seq<(Seq<char>, Seq<char>)> {
    p.map_values(|q: (String, String)| (q.0@, q.1@))
}

/// A block state known to a registry: a name and its property values.
#[derive(Clone, Debug)]
pub struct BlockState {
    pub name: String,
    pub properties: Vec<(String, String)>,
}

/// A block named by a chunk palette; `None` properties mean none at all.
#[derive(Clone, Debug)]
pub struct PaletteEntry {
    pub name: String,
    pub properties: Option<Vec<(String, String)>>,
}

/// The properties of a palette entry, with absent properties read as empty.
pub open spec fn entry_props(e: PaletteEntry) -> Seq<(Seq<char>, Seq<char>)> {
    match e.properties {
        Some(p) => props_of(p@),
        None => Seq::empty(),
    }
}

/// No key appears twice in a property list.
pub open spec fn keys_unique(p: Seq<(Seq<char>, Seq<char>)>) -> bool {
    forall|i: int, j: int| 0 <= i < j < p.len() ==> p[i].0 != p[j].0
}

/// A registry state stands for a palette entry when the names agree and both
/// hold the same key/value pairs, in whatever order.
pub open spec fn state_matches(s: BlockState, e: PaletteEntry) -> bool {
    s.name@ == e.name@ && props_of(s.properties@).to_set() == entry_props(e).to_set()
}

/// Index of the first state at or after `i` that stands for `e`.
pub open spec fn lookup_from(states: Seq<BlockState>, e: PaletteEntry, i: nat) -> Option<nat>
    decreases states.len() - i,
{
    if i >= states.len() {
        None
    } else if state_matches(states[i as int], e) {
        Some(i)
    } else {
        lookup_from(states, e, i + 1)
    }
}

/// The identifier that a registry gives a palette entry: the index of the
/// first matching state.
pub open spec fn resolve_spec(states: Seq<BlockState>, e: PaletteEntry) -> Option<nat> {
    lookup_from(states, e, 0)
}

fn contains_pair(p: &Vec<(String, String)>, k: &String, v: &String) -> (r: bool)
    ensures
        r == props_of(p@).contains((k@, v@)),
{
    let mut i: usize = 0;
    while i < p.len()
        invariant
            i <= p@.len(),
            forall|j: int| 0 <= j < i ==> props_of(p@)[j] != (k@, v@),
        decreases p@.len() - i,
    {
        if p[i].0 == *k && p[i].1 == *v {
            proof {
                assert(props_of(p@)[i as int] == (k@, v@));
            }
            return true;
        }
        i += 1;
    }
    false
}

/// Whether every pair of `a` is a pair of `b`.
fn pairs_within(a: &Vec<(String, String)>, b: &Vec<(String, String)>) -> (r: bool)
    ensures
        r == (forall|i: int| 0 <= i < a@.len() ==> props_of(b@).contains(#[trigger] props_of(a@)[i])),
{
    let mut i: usize = 0;
    while i < a.len()
        invariant
            i <= a@.len(),
            forall|j: int| 0 <= j < i ==> props_of(b@).contains(#[trigger] props_of(a@)[j]),
        decreases a@.len() - i,
    {
        if !contains_pair(b, &a[i].0, &a[i].1) {
            proof {
                assert(props_of(a@)[i as int] == (a@[i as int].0@, a@[i as int].1@));
                assert(!props_of(b@).contains(props_of(a@)[i as int]));
            }
            return false;
        }
        i += 1;
    }
    true
}

proof fn lemma_same_pairs(a: Seq<(Seq<char>, Seq<char>)>, b: Seq<(Seq<char>, Seq<char>)>)
    ensures
        (a.to_set() == b.to_set()) == ((forall|i: int| 0 <= i < a.len() ==> b.contains(#[trigger] a[i]))
            && (forall|i: int| 0 <= i < b.len() ==> a.contains(#[trigger] b[i]))),
{
    if a.to_set() == b.to_set() {
        assert forall|i: int| 0 <= i < a.len() implies b.contains(#[trigger] a[i]) by {
            assert(a.to_set().contains(a[i]));
        }
        assert forall|i: int| 0 <= i < b.len() implies a.contains(#[trigger] b[i]) by {
            assert(b.to_set().contains(b[i]));
        }
    }
    if (forall|i: int| 0 <= i < a.len() ==> b.contains(#[trigger] a[i])) && (forall|i: int|
        0 <= i < b.len() ==> a.contains(#[trigger] b[i])) {
        assert(a.to_set() =~= b.to_set());
    }
}

fn props_equal(a: &Vec<(String, String)>, b: &Vec<(String, String)>) -> (r: bool)
    ensures
        r == (props_of(a@).to_set() == props_of(b@).to_set()),
{
    proof {
        lemma_same_pairs(props_of(a@), props_of(b@));
    }
    pairs_within(a, b) && pairs_within(b, a)
}

fn state_matches_entry(s: &BlockState, e: &PaletteEntry) -> (r: bool)
    ensures
        r == state_matches(*s, *e),
{
    if s.name != e.name {
        return false;
    }
    match &e.properties {
        Some(p) => props_equal(&s.properties, p),
        None => {
            let none: Vec<(String, String)> = Vec::new();
            proof {
                assert(props_of(none@) =~= Seq::empty());
            }
            props_equal(&s.properties, &none)
        },
    }
}

/// Whether no key appears twice in a property list.
fn unique_keys(p: &Vec<(String, String)>) -> (r: bool)
    ensures
        r == keys_unique(props_of(p@)),
{
    let mut i: usize = 0;
    while i < p.len()
        invariant
            i <= p@.len(),
            forall|x: int, y: int| 0 <= x < y < p@.len() && x < i ==> props_of(p@)[x].0 != props_of(p@)[y].0,
        decreases p@.len() - i,
    {
        let mut j: usize = i + 1;
        while j < p.len()
            invariant
                i < p@.len(),
                i < j <= p@.len(),
                forall|x: int, y: int| 0 <= x < y < p@.len() && x < i ==> props_of(p@)[x].0 != props_of(p@)[y].0,
                forall|y: int| i < y < j ==> props_of(p@)[i as int].0 != props_of(p@)[y].0,
            decreases p@.len() - j,
        {
            if p[i].0 == p[j].0 {
                proof {
                    assert(props_of(p@)[i as int].0 == props_of(p@)[j as int].0);
                }
                return false;
            }
            j += 1;
        }
        i += 1;
    }
    true
}

/// A table of block states; a state's identifier is its index.
pub struct BlockRegistry {
    states: Vec<BlockState>,
}

impl View for BlockRegistry {
    type V = Seq<BlockState>;

    closed spec fn view(&self) -> Seq<BlockState> {
        self.states@
    }
}

impl BlockRegistry {
    /// Every index fits a 16-bit identifier, and each state's properties
    /// form a map: no key twice.
    pub open spec fn wf(&self) -> bool {
        &&& self@.len() <= 0x10000
        &&& forall|i: int| 0 <= i < self@.len() ==> keys_unique(props_of(#[trigger] self@[i].properties@))
    }

    /// A registry of the given states, or `None` when there are more than
    /// 16-bit identifiers can tell apart or a state names a key twice.
    pub fn new(states: Vec<BlockState>) -> (r: Option<BlockRegistry>)
        ensures
            r is Some <==> (states@.len() <= 0x10000 && forall|i: int|
                0 <= i < states@.len() ==> keys_unique(props_of(#[trigger] states@[i].properties@))),
            r matches Some(g) ==> g@ == states@ && g.wf(),
    {
        if states.len() > 0x10000 {
            return None;
        }
        let mut i: usize = 0;
        while i < states.len()
            invariant
                i <= states@.len(),
                forall|j: int| 0 <= j < i ==> keys_unique(props_of(#[trigger] states@[j].properties@)),
            decreases states@.len() - i,
        {
            if !unique_keys(&states[i].properties) {
                return None;
            }
            i += 1;
        }
        Some(BlockRegistry { states })
    }

    /// The identifier of the first state that stands for the entry.
    pub fn resolve(&self, entry: &PaletteEntry) -> (r: Option<BlockId>)
        requires
            self.wf(),
        ensures
            r is Some <==> resolve_spec(self@, *entry) is Some,
            r matches Some(id) ==> id.data == resolve_spec(self@, *entry)->Some_0,
    {
        let mut i: usize = 0;
        while i < self.states.len()
            invariant
                i <= self.states@.len() <= 0x10000,
                resolve_spec(self@, *entry) == lookup_from(self@, *entry, i as nat),
            decreases self.states@.len() - i,
        {
            if state_matches_entry(&self.states[i], entry) {
                return Some(BlockId { data: i as u16 });
            }
            i += 1;
        }
        None
    }

    /// The state with the given identifier, if the registry has one.
    pub fn lookup(&self, id: BlockId) -> (r: Option<&BlockState>)
        ensures
            r is Some <==> id.data < self@.len(),
            r matches Some(s) ==> *s == self@[id.data as int],
    {
        if (id.data as usize) < self.states.len() {
            Some(&self.states[id.data as usize])
        } else {
            None
        }
    }
}

} // verus!
