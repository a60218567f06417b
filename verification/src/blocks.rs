use crate::casing::{pascal_spec, process_field, split_where, to_pascal_case};
use vstd::prelude::*;
use vstd::string::StrSliceExecFns;

verus! {

/// One block of the block report: its properties with their possible
/// values, and its states.
#[derive(Debug, Clone)]
pub struct BlockEntry {
    pub properties: Option<Vec<(String, Vec<String>)>>,
    pub states: Vec<BlockEntryState>,
}

/// One state of a block: its id and the value of each property.
#[derive(Debug, Clone)]
pub struct BlockEntryState {
    pub id: u32,
    pub properties: Option<Vec<(String, String)>>,
}

pub type PropertyView = (Seq<char>, Seq<Seq<char>>);

pub type StateView = (u32, Option<Seq<(Seq<char>, Seq<char>)>>);

impl View for BlockEntryState {
    type V = StateView;

    open spec fn view(&self) -> StateView {
        (
            self.id,
            match self.properties {
                Some(p) => Some(p@.map_values(|kv: (String, String)| (kv.0@, kv.1@))),
                None => None,
            },
        )
    }
}

impl View for BlockEntry {
    type V = (Option<Seq<PropertyView>>, Seq<StateView>);

    open spec fn view(&self) -> (Option<Seq<PropertyView>>, Seq<StateView>) {
        (
            match self.properties {
                Some(p) => Some(
                    p@.map_values(
                        |kv: (String, Vec<String>)| (kv.0@, kv.1@.map_values(|v: String| v@)),
                    ),
                ),
                None => None,
            },
            self.states@.map_values(|s: BlockEntryState| s@),
        )
    }
}

/// A property as the generated code has it: the name of its enum, the
/// name of the block's field that holds it, and the names of the enum's
/// variants.
#[derive(Debug, Clone)]
pub struct PropertyPlan {
    pub enum_name: String,
    pub field_name: String,
    pub variants: Vec<String>,
}

/// One property's value in a state: the field, its enum and the variant.
#[derive(Debug, Clone)]
pub struct AssignmentPlan {
    pub field_name: String,
    pub enum_name: String,
    pub variant_name: String,
}

/// One state: its id, and the value of each property where the block has
/// properties.
#[derive(Debug, Clone)]
pub struct StatePlan {
    pub id: u32,
    pub assignments: Option<Vec<AssignmentPlan>>,
}

/// What the generated code holds for one block: its type and module, the
/// enums of its properties, and one arm per state between the block value
/// and its id.
#[derive(Debug, Clone)]
pub struct BlockPlan {
    pub block_type: String,
    pub module_name: String,
    pub properties: Option<Vec<PropertyPlan>>,
    pub states: Vec<StatePlan>,
}

pub type PropertyPlanView = (Seq<char>, Seq<char>, Seq<Seq<char>>);

pub type AssignmentView = (Seq<char>, Seq<char>, Seq<char>);

pub type StatePlanView = (u32, Option<Seq<AssignmentView>>);

impl View for PropertyPlan {
    type V = PropertyPlanView;

    open spec fn view(&self) -> PropertyPlanView {
        (self.enum_name@, self.field_name@, self.variants@.map_values(|v: String| v@))
    }
}

impl View for AssignmentPlan {
    type V = AssignmentView;

    open spec fn view(&self) -> AssignmentView {
        (self.field_name@, self.enum_name@, self.variant_name@)
    }
}

impl View for StatePlan {
    type V = StatePlanView;

    open spec fn view(&self) -> StatePlanView {
        (
            self.id,
            match self.assignments {
                Some(a) => Some(a@.map_values(|x: AssignmentPlan| x@)),
                None => None,
            },
        )
    }
}

impl View for BlockPlan {
    type V = (Seq<char>, Seq<char>, Option<Seq<PropertyPlanView>>, Seq<StatePlanView>);

    open spec fn view(&self) -> (
        Seq<char>,
        Seq<char>,
        Option<Seq<PropertyPlanView>>,
        Seq<StatePlanView>,
    ) {
        (
            self.block_type@,
            self.module_name@,
            match self.properties {
                Some(p) => Some(p@.map_values(|x: PropertyPlan| x@)),
                None => None,
            },
            self.states@.map_values(|s: StatePlan| s@),
        )
    }
}

/// Separates the namespace of a block's name from the rest.
pub open spec fn colon_sep() -> spec_fn(char) -> bool {
    |c: char| c == ':'
}

/// What follows the last `:` of a name, or the whole name where it has
/// none.
pub open spec fn last_segment_spec(name: Seq<char>) -> Seq<char> {
    split_where(name, colon_sep()).last()
}

/// The field that holds a property: `type` becomes `kind`.
pub open spec fn field_name_spec(k: Seq<char>) -> Seq<char> {
    if k == "type"@ {
        "kind"@
    } else {
        k
    }
}

pub open spec fn property_plan_spec(p: PropertyView) -> PropertyPlanView {
    (pascal_spec(p.0), field_name_spec(p.0), p.1.map_values(|v: Seq<char>| pascal_spec(v)))
}

pub open spec fn assignment_spec(kv: (Seq<char>, Seq<char>)) -> AssignmentView {
    (field_name_spec(kv.0), pascal_spec(kv.0), pascal_spec(kv.1))
}

pub open spec fn state_plan_spec(s: StateView) -> StatePlanView {
    (
        s.0,
        match s.1 {
            Some(p) => Some(p.map_values(|kv: (Seq<char>, Seq<char>)| assignment_spec(kv))),
            None => None,
        },
    )
}

/// The plan of block `name`: its type named by the Pascal case of the part
/// of its name after the namespace, its module by that part itself; each
/// property and state in the order given.
pub open spec fn block_plan_spec(
    name: Seq<char>,
    e: (Option<Seq<PropertyView>>, Seq<StateView>),
) -> (Seq<char>, Seq<char>, Option<Seq<PropertyPlanView>>, Seq<StatePlanView>) {
    (
        pascal_spec(last_segment_spec(name)),
        last_segment_spec(name),
        match e.0 {
            Some(p) => Some(p.map_values(|x: PropertyView| property_plan_spec(x))),
            None => None,
        },
        e.1.map_values(|s: StateView| state_plan_spec(s)),
    )
}

/// What follows the last `:` of `name` (see `last_segment_spec`).
pub fn last_segment(name: &str) -> (r: String)
    ensures
        r@ == last_segment_spec(name@),
{
    let len = name.unicode_len();
    let mut start: usize = 0;
    let mut i: usize = 0;
    proof {
        assert(name@.take(0) =~= Seq::<char>::empty());
        assert(name@.subrange(0, 0) =~= Seq::<char>::empty());
    }
    while i < len
        invariant
            start <= i <= len,
            len == name@.len(),
            split_where(name@.take(i as int), colon_sep()).last() == name@.subrange(
                start as int,
                i as int,
            ),
        decreases len - i,
    {
        let c = name.get_char(i);
        proof {
            let t = name@.take(i + 1);
            assert(t.drop_last() =~= name@.take(i as int));
            assert(t.last() == c);
            crate::casing::lemma_split_where_nonempty(name@.take(i as int), colon_sep());
            if c == ':' {
                assert(name@.subrange(i + 1, i + 1) =~= Seq::<char>::empty());
            } else {
                assert(name@.subrange(start as int, i as int).push(c) =~= name@.subrange(
                    start as int,
                    i + 1,
                ));
            }
        }
        if c == ':' {
            start = i + 1;
        }
        i = i + 1;
    }
    proof {
        assert(name@.take(len as int) =~= name@);
    }
    name.substring_char(start, len).to_owned()
}

fn pascal_all(values: &Vec<String>) -> (r: Vec<String>)
    ensures
        r@.map_values(|v: String| v@) == values@.map_values(|v: String| v@).map_values(
            |v: Seq<char>| pascal_spec(v),
        ),
{
    let mut out: Vec<String> = Vec::new();
    let mut i: usize = 0;
    while i < values.len()
        invariant
            i <= values@.len(),
            out@.len() == i,
            forall|j: int| 0 <= j < i ==> #[trigger] out@[j]@ == pascal_spec(values@[j]@),
        decreases values@.len() - i,
    {
        out.push(to_pascal_case(values[i].as_str()));
        i = i + 1;
    }
    assert(out@.map_values(|v: String| v@) =~= values@.map_values(|v: String| v@).map_values(
        |v: Seq<char>| pascal_spec(v),
    ));
    out
}

fn plan_properties(props: &Vec<(String, Vec<String>)>) -> (r: Vec<PropertyPlan>)
    ensures
        r@.map_values(|x: PropertyPlan| x@) == props@.map_values(
            |kv: (String, Vec<String>)| (kv.0@, kv.1@.map_values(|v: String| v@)),
        ).map_values(|x: PropertyView| property_plan_spec(x)),
{
    let mut out: Vec<PropertyPlan> = Vec::new();
    let mut i: usize = 0;
    while i < props.len()
        invariant
            i <= props@.len(),
            out@.len() == i,
            forall|j: int|
                0 <= j < i ==> #[trigger] out@[j]@ == property_plan_spec(
                    (props@[j].0@, props@[j].1@.map_values(|v: String| v@)),
                ),
        decreases props@.len() - i,
    {
        let k = props[i].0.as_str();
        let p = PropertyPlan {
            enum_name: to_pascal_case(k),
            field_name: process_field(k),
            variants: pascal_all(&props[i].1),
        };
        proof {
            reveal_strlit("type");
            reveal_strlit("kind");
        }
        out.push(p);
        i = i + 1;
    }
    assert(out@.map_values(|x: PropertyPlan| x@) =~= props@.map_values(
        |kv: (String, Vec<String>)| (kv.0@, kv.1@.map_values(|v: String| v@)),
    ).map_values(|x: PropertyView| property_plan_spec(x)));
    out
}

fn plan_assignments(props: &Vec<(String, String)>) -> (r: Vec<AssignmentPlan>)
    ensures
        r@.map_values(|x: AssignmentPlan| x@) == props@.map_values(
            |kv: (String, String)| (kv.0@, kv.1@),
        ).map_values(|kv: (Seq<char>, Seq<char>)| assignment_spec(kv)),
{
    let mut out: Vec<AssignmentPlan> = Vec::new();
    let mut i: usize = 0;
    while i < props.len()
        invariant
            i <= props@.len(),
            out@.len() == i,
            forall|j: int|
                0 <= j < i ==> #[trigger] out@[j]@ == assignment_spec(
                    (props@[j].0@, props@[j].1@),
                ),
        decreases props@.len() - i,
    {
        let k = props[i].0.as_str();
        let a = AssignmentPlan {
            field_name: process_field(k),
            enum_name: to_pascal_case(k),
            variant_name: to_pascal_case(props[i].1.as_str()),
        };
        out.push(a);
        i = i + 1;
    }
    assert(out@.map_values(|x: AssignmentPlan| x@) =~= props@.map_values(
        |kv: (String, String)| (kv.0@, kv.1@),
    ).map_values(|kv: (Seq<char>, Seq<char>)| assignment_spec(kv)));
    out
}

fn plan_state(state: &BlockEntryState) -> (r: StatePlan)
    ensures
        r@ == state_plan_spec(state@),
{
    let assignments = match &state.properties {
        Some(p) => Some(plan_assignments(p)),
        None => None,
    };
    StatePlan { id: state.id, assignments }
}

/// The plan of one block (see `block_plan_spec`).
pub fn plan_block(name: &str, entry: &BlockEntry) -> (r: BlockPlan)
    ensures
        r@ == block_plan_spec(name@, entry@),
{
    let module_name = last_segment(name);
    let block_type = to_pascal_case(module_name.as_str());
    let properties = match &entry.properties {
        Some(p) => Some(plan_properties(p)),
        None => None,
    };
    let mut states: Vec<StatePlan> = Vec::new();
    let mut i: usize = 0;
    while i < entry.states.len()
        invariant
            i <= entry.states@.len(),
            states@.len() == i,
            forall|j: int| 0 <= j < i ==> #[trigger] states@[j]@ == state_plan_spec(entry.states@[j]@),
        decreases entry.states@.len() - i,
    {
        states.push(plan_state(&entry.states[i]));
        i = i + 1;
    }
    assert(states@.map_values(|s: StatePlan| s@) =~= entry@.1.map_values(
        |s: StateView| state_plan_spec(s),
    ));
    BlockPlan { block_type, module_name, properties, states }
}

/// The plan of every block, in the order given.
pub fn plan_blocks(blocks: &Vec<(String, BlockEntry)>) -> (r: Vec<BlockPlan>)
    ensures
        r@.len() == blocks@.len(),
        forall|i: int|
            0 <= i < blocks@.len() ==> #[trigger] r@[i]@ == block_plan_spec(
                blocks@[i].0@,
                blocks@[i].1@,
            ),
{
    let mut out: Vec<BlockPlan> = Vec::new();
    let mut i: usize = 0;
    while i < blocks.len()
        invariant
            i <= blocks@.len(),
            out@.len() == i,
            forall|j: int|
                0 <= j < i ==> #[trigger] out@[j]@ == block_plan_spec(
                    blocks@[j].0@,
                    blocks@[j].1@,
                ),
        decreases blocks@.len() - i,
    {
        out.push(plan_block(blocks[i].0.as_str(), &blocks[i].1));
        i = i + 1;
    }
    out
}

} // verus!
