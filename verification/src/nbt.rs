use vstd::prelude::*;

verus! {

/// A JSON number as the JSON reader keeps it: a non-negative integer, a
/// negative integer, or a floating-point number held as its IEEE-754 bits.
#[derive(Debug, Clone, Copy, PartialEq, Eq, Structural)]
pub enum JsonNumber {
    PosInt(u64),
    NegInt(i64),
    Float(u64),
}

/// A JSON value; an object keeps its members in order.
#[derive(Debug)]
pub enum JsonValue {
    Null,
    Bool(bool),
    Number(JsonNumber),
    String(String),
    Array(Vec<JsonValue>),
    Object(Vec<(String, JsonValue)>),
}

pub enum JsonView {
    Null,
    Bool(bool),
    Number(JsonNumber),
    String(Seq<char>),
    Array(Seq<JsonView>),
    Object(Seq<(Seq<char>, JsonView)>),
}

/// An NBT value; a double is held as its IEEE-754 bits, a compound as its
/// entries.
#[derive(Debug)]
pub enum NbtValue {
    Byte(i8),
    Int(i32),
    Long(i64),
    Double(u64),
    String(String),
    List(Vec<NbtValue>),
    Compound(Vec<(String, NbtValue)>),
    IntArray(Vec<i32>),
    LongArray(Vec<i64>),
}

pub enum NbtView {
    Byte(i8),
    Int(i32),
    Long(i64),
    Double(u64),
    String(Seq<char>),
    List(Seq<NbtView>),
    Compound(Seq<(Seq<char>, NbtView)>),
    IntArray(Seq<i32>),
    LongArray(Seq<i64>),
}

/// Why JSON could not become NBT.
#[derive(Debug, Clone, Copy, PartialEq, Eq, Structural)]
pub enum RegistryDataError {
    /// A null, an integer above `i64::MAX`, or a root that is not an object.
    InvalidJson,
}

impl JsonValue {
    pub open spec fn json_view(self) -> JsonView
        decreases self,
    {
        match self {
            JsonValue::Null => JsonView::Null,
            JsonValue::Bool(b) => JsonView::Bool(b),
            JsonValue::Number(n) => JsonView::Number(n),
            JsonValue::String(s) => JsonView::String(s@),
            JsonValue::Array(v) => JsonView::Array(
                Seq::new(
                    v@.len(),
                    |i: int|
                        if 0 <= i < v@.len() {
                            v@[i].json_view()
                        } else {
                            JsonView::Null
                        },
                ),
            ),
            JsonValue::Object(m) => JsonView::Object(
                Seq::new(
                    m@.len(),
                    |i: int|
                        if 0 <= i < m@.len() {
                            (m@[i].0@, m@[i].1.json_view())
                        } else {
                            (Seq::empty(), JsonView::Null)
                        },
                ),
            ),
        }
    }
}

impl View for JsonValue {
    type V = JsonView;

    open spec fn view(&self) -> JsonView {
        self.json_view()
    }
}

impl NbtValue {
    pub open spec fn nbt_view(self) -> NbtView
        decreases self,
    {
        match self {
            NbtValue::Byte(b) => NbtView::Byte(b),
            NbtValue::Int(i) => NbtView::Int(i),
            NbtValue::Long(l) => NbtView::Long(l),
            NbtValue::Double(d) => NbtView::Double(d),
            NbtValue::String(s) => NbtView::String(s@),
            NbtValue::List(v) => NbtView::List(
                Seq::new(
                    v@.len(),
                    |i: int|
                        if 0 <= i < v@.len() {
                            v@[i].nbt_view()
                        } else {
                            NbtView::Byte(0)
                        },
                ),
            ),
            NbtValue::Compound(m) => NbtView::Compound(
                Seq::new(
                    m@.len(),
                    |i: int|
                        if 0 <= i < m@.len() {
                            (m@[i].0@, m@[i].1.nbt_view())
                        } else {
                            (Seq::empty(), NbtView::Byte(0))
                        },
                ),
            ),
            NbtValue::IntArray(v) => NbtView::IntArray(v@),
            NbtValue::LongArray(v) => NbtView::LongArray(v@),
        }
    }
}

impl View for NbtValue {
    type V = NbtView;

    open spec fn view(&self) -> NbtView {
        self.nbt_view()
    }
}

/// A JSON integer as a 64-bit signed number, when it is one.
pub open spec fn integer_of(n: JsonNumber) -> Option<i64> {
    match n {
        JsonNumber::PosInt(u) => if u <= i64::MAX {
            Some(u as i64)
        } else {
            None
        },
        JsonNumber::NegInt(i) => Some(i),
        JsonNumber::Float(_) => None,
    }
}

pub open spec fn fits_i32(x: i64) -> bool {
    i32::MIN <= x <= i32::MAX
}

/// A JSON number as NBT: an int when it fits 32 bits, a long when it fits
/// 64, a double when it is a float; an integer above `i64::MAX` has no NBT
/// form.
pub open spec fn number_to_nbt(n: JsonNumber) -> Option<NbtView> {
    match n {
        JsonNumber::Float(bits) => Some(NbtView::Double(bits)),
        _ => match integer_of(n) {
            Some(i) => if fits_i32(i) {
                Some(NbtView::Int(i as i32))
            } else {
                Some(NbtView::Long(i))
            },
            None => None,
        },
    }
}

/// The element is a JSON integer (of either sign).
pub open spec fn is_integer(j: JsonView) -> bool {
    j matches JsonView::Number(n) && !(n is Float)
}

/// The integer value of an element known to be an integer.
pub open spec fn element_integer(j: JsonView) -> Option<i64> {
    match j {
        JsonView::Number(n) => integer_of(n),
        _ => None,
    }
}

/// A compound's entries with `key` set to `value`: replaced where the key
/// already is, added at the end otherwise.
pub open spec fn compound_insert(
    m: Seq<(Seq<char>, NbtView)>,
    key: Seq<char>,
    value: NbtView,
) -> Seq<(Seq<char>, NbtView)> {
    if exists|i: int| 0 <= i < m.len() && m[i].0 == key {
        let i = choose|i: int| 0 <= i < m.len() && m[i].0 == key && forall|j: int| 0 <= j < i ==> m[j].0 != key;
        m.update(i, (key, value))
    } else {
        m.push((key, value))
    }
}

/// JSON as NBT: `None` where some part has no NBT form.
pub open spec fn json_to_nbt_spec(j: JsonView) -> Option<NbtView>
    decreases j,
{
    match j {
        JsonView::Null => None,
        JsonView::Bool(b) => Some(NbtView::Byte(if b { 1 } else { 0 })),
        JsonView::Number(n) => number_to_nbt(n),
        JsonView::String(s) => Some(NbtView::String(s)),
        JsonView::Array(arr) => if arr.len() == 0 {
            Some(NbtView::List(Seq::empty()))
        } else if forall|i: int| 0 <= i < arr.len() ==> is_integer(#[trigger] arr[i]) {
            integer_array_spec(arr)
        } else {
            match list_spec(arr) {
                Some(items) => Some(NbtView::List(items)),
                None => None,
            }
        },
        JsonView::Object(members) => match compound_spec(Seq::empty(), members) {
            Some(entries) => Some(NbtView::Compound(entries)),
            None => None,
        },
    }
}

/// An array of JSON integers as NBT: an int array when every value fits 32
/// bits, a long array otherwise; no NBT form when one is above `i64::MAX`.
pub open spec fn integer_array_spec(arr: Seq<JsonView>) -> Option<NbtView> {
    if exists|i: int| 0 <= i < arr.len() && element_integer(#[trigger] arr[i]) is None {
        None
    } else {
        let longs = Seq::new(arr.len(), |i: int| element_integer(arr[i])->0);
        if forall|i: int| 0 <= i < longs.len() ==> fits_i32(#[trigger] longs[i]) {
            Some(NbtView::IntArray(Seq::new(arr.len(), |i: int| longs[i] as i32)))
        } else {
            Some(NbtView::LongArray(longs))
        }
    }
}

/// Each element as NBT, when all have an NBT form.
pub open spec fn list_spec(arr: Seq<JsonView>) -> Option<Seq<NbtView>>
    decreases arr,
{
    if arr.len() == 0 {
        Some(Seq::empty())
    } else {
        match list_spec(arr.drop_last()) {
            Some(items) => match json_to_nbt_spec(arr.last()) {
                Some(v) => Some(items.push(v)),
                None => None,
            },
            None => None,
        }
    }
}

proof fn lemma_list_elements(arr: Seq<JsonView>)
    ensures
        list_spec(arr) is Some <==> forall|i: int|
            0 <= i < arr.len() ==> (#[trigger] json_to_nbt_spec(arr[i])) is Some,
        list_spec(arr) matches Some(items) ==> items.len() == arr.len() && forall|i: int|
            0 <= i < arr.len() ==> Some(#[trigger] items[i]) == json_to_nbt_spec(arr[i]),
    decreases arr.len(),
{
    if arr.len() > 0 {
        let prev = arr.drop_last();
        lemma_list_elements(prev);
        assert forall|i: int| 0 <= i < prev.len() implies #[trigger] prev[i] == arr[i] by {}
        if forall|i: int| 0 <= i < arr.len() ==> (#[trigger] json_to_nbt_spec(arr[i])) is Some {
            assert forall|i: int| 0 <= i < prev.len() implies (#[trigger] json_to_nbt_spec(
                prev[i],
            )) is Some by {
                assert(json_to_nbt_spec(arr[i]) is Some);
            }
            assert(json_to_nbt_spec(arr[arr.len() - 1]) is Some);
            assert(list_spec(arr) is Some);
        }
        if list_spec(arr) is None && list_spec(prev) is Some {
            assert(json_to_nbt_spec(arr[arr.len() - 1]) is None);
        }
        if list_spec(prev) is None {
            let i = choose|i: int| 0 <= i < prev.len() && !(#[trigger] json_to_nbt_spec(prev[i]) is Some);
            assert(json_to_nbt_spec(arr[i]) is None);
        }
        if list_spec(arr) is Some {
            let items = list_spec(arr)->0;
            let pi = list_spec(prev)->0;
            assert(items == pi.push(json_to_nbt_spec(arr.last())->0));
            assert forall|i: int| 0 <= i < arr.len() implies Some(#[trigger] items[i])
                == json_to_nbt_spec(arr[i]) by {
                if i < prev.len() {
                    assert(items[i] == pi[i]);
                    assert(Some(pi[i]) == json_to_nbt_spec(prev[i]));
                }
            }
            assert forall|i: int| 0 <= i < arr.len() implies (#[trigger] json_to_nbt_spec(
                arr[i],
            )) is Some by {
                assert(Some(items[i]) == json_to_nbt_spec(arr[i]));
            }
        }
    }
}

/// Law: an array that is not all integers becomes a list exactly when each
/// of its elements has an NBT form, and then the list holds, in the same
/// order, each element converted.
pub proof fn lemma_array_to_list(arr: Seq<JsonView>)
    requires
        exists|i: int| 0 <= i < arr.len() && !is_integer(#[trigger] arr[i]),
    ensures
        json_to_nbt_spec(JsonView::Array(arr)) is Some <==> forall|i: int|
            0 <= i < arr.len() ==> (#[trigger] json_to_nbt_spec(arr[i])) is Some,
        json_to_nbt_spec(JsonView::Array(arr)) is Some ==> (json_to_nbt_spec(
            JsonView::Array(arr),
        ) matches Some(NbtView::List(items)) && items.len() == arr.len() && forall|i: int|
            0 <= i < arr.len() ==> Some(#[trigger] items[i]) == json_to_nbt_spec(arr[i])),
{
    lemma_list_elements(arr);
    assert(arr.len() > 0);
    assert(!(forall|i: int| 0 <= i < arr.len() ==> is_integer(#[trigger] arr[i])));
}

/// The members of an object set one after another into the entries
/// `start`, when all have an NBT form.
pub open spec fn compound_spec(
    start: Seq<(Seq<char>, NbtView)>,
    members: Seq<(Seq<char>, JsonView)>,
) -> Option<Seq<(Seq<char>, NbtView)>>
    decreases members,
{
    if members.len() == 0 {
        Some(start)
    } else {
        match compound_spec(start, members.drop_last()) {
            Some(entries) => match json_to_nbt_spec(members.last().1) {
                Some(v) => Some(compound_insert(entries, members.last().0, v)),
                None => None,
            },
            None => None,
        }
    }
}

/// The views of a sequence of JSON values.
pub open spec fn json_seq_view(s: Seq<JsonValue>) -> Seq<JsonView> {
    Seq::new(s.len(), |i: int| s[i]@)
}

/// The views of an object's members.
pub open spec fn members_view(s: Seq<(String, JsonValue)>) -> Seq<(Seq<char>, JsonView)> {
    Seq::new(s.len(), |i: int| (s[i].0@, s[i].1@))
}

/// The views of a sequence of NBT values.
pub open spec fn nbt_seq_view(s: Seq<NbtValue>) -> Seq<NbtView> {
    Seq::new(s.len(), |i: int| s[i]@)
}

/// The views of a compound's entries.
pub open spec fn entries_view(s: Seq<(String, NbtValue)>) -> Seq<(Seq<char>, NbtView)> {
    Seq::new(s.len(), |i: int| (s[i].0@, s[i].1@))
}

pub proof fn lemma_json_view_unfold(v: JsonValue)
    ensures
        v matches JsonValue::Array(a) ==> v@ == JsonView::Array(json_seq_view(a@)),
        v matches JsonValue::Object(m) ==> v@ == JsonView::Object(members_view(m@)),
{
    match v {
        JsonValue::Array(a) => {
            assert(v@->Array_0 =~= json_seq_view(a@));
        },
        JsonValue::Object(m) => {
            assert(v@->Object_0 =~= members_view(m@));
        },
        _ => {},
    }
}

proof fn lemma_nbt_list_view(items: Vec<NbtValue>)
    ensures
        NbtValue::List(items)@ == NbtView::List(nbt_seq_view(items@)),
{
    assert(NbtValue::List(items)@->List_0 =~= nbt_seq_view(items@));
}

proof fn lemma_nbt_compound_view(entries: Vec<(String, NbtValue)>)
    ensures
        NbtValue::Compound(entries)@ == NbtView::Compound(entries_view(entries@)),
{
    assert(NbtValue::Compound(entries)@->Compound_0 =~= entries_view(entries@));
}

/// When a prefix of the elements has no NBT form, neither has the whole.
proof fn lemma_list_spec_prefix_none(arr: Seq<JsonView>, k: int)
    requires
        0 <= k <= arr.len(),
        list_spec(arr.take(k)) is None,
    ensures
        list_spec(arr) is None,
    decreases arr.len() - k,
{
    if k < arr.len() {
        assert(arr.take(k + 1).drop_last() =~= arr.take(k));
        lemma_list_spec_prefix_none(arr, k + 1);
    } else {
        assert(arr.take(k) =~= arr);
    }
}

/// When a prefix of the members has no NBT form, neither has the whole.
proof fn lemma_compound_spec_prefix_none(
    start: Seq<(Seq<char>, NbtView)>,
    members: Seq<(Seq<char>, JsonView)>,
    k: int,
)
    requires
        0 <= k <= members.len(),
        compound_spec(start, members.take(k)) is None,
    ensures
        compound_spec(start, members) is None,
    decreases members.len() - k,
{
    if k < members.len() {
        assert(members.take(k + 1).drop_last() =~= members.take(k));
        lemma_compound_spec_prefix_none(start, members, k + 1);
    } else {
        assert(members.take(k) =~= members);
    }
}

fn number_to_nbt_exec(n: JsonNumber) -> (r: Result<NbtValue, RegistryDataError>)
    ensures
        match number_to_nbt(n) {
            Some(v) => r matches Ok(x) && x@ == v,
            None => r == Err::<NbtValue, RegistryDataError>(RegistryDataError::InvalidJson),
        },
{
    match n {
        JsonNumber::PosInt(u) => {
            if u <= i64::MAX as u64 {
                let i = u as i64;
                if i32::MIN as i64 <= i && i <= i32::MAX as i64 {
                    Ok(NbtValue::Int(i as i32))
                } else {
                    Ok(NbtValue::Long(i))
                }
            } else {
                Err(RegistryDataError::InvalidJson)
            }
        },
        JsonNumber::NegInt(i) => {
            if i32::MIN as i64 <= i && i <= i32::MAX as i64 {
                Ok(NbtValue::Int(i as i32))
            } else {
                Ok(NbtValue::Long(i))
            }
        },
        JsonNumber::Float(bits) => Ok(NbtValue::Double(bits)),
    }
}

/// Converts JSON to NBT: booleans become bytes, integers ints or longs,
/// floats doubles, strings strings, arrays lists or integer arrays, objects
/// compounds; a null or an integer above `i64::MAX` anywhere is refused.
pub fn json_to_nbt(value: &JsonValue) -> (r: Result<NbtValue, RegistryDataError>)
    ensures
        match json_to_nbt_spec(value@) {
            Some(v) => r matches Ok(x) && x@ == v,
            None => r == Err::<NbtValue, RegistryDataError>(RegistryDataError::InvalidJson),
        },
    decreases value, 0int,
{
    proof {
        lemma_json_view_unfold(*value);
    }
    match value {
        JsonValue::Null => Err(RegistryDataError::InvalidJson),
        JsonValue::Bool(b) => Ok(NbtValue::Byte(if *b { 1 } else { 0 })),
        JsonValue::Number(n) => number_to_nbt_exec(*n),
        JsonValue::String(s) => Ok(NbtValue::String(s.clone())),
        JsonValue::Array(arr) => convert_array(arr),
        JsonValue::Object(map) => {
            let empty: Vec<(String, NbtValue)> = Vec::new();
            proof {
                lemma_nbt_compound_view(empty);
                assert(entries_view(Seq::<(String, NbtValue)>::empty()) =~= Seq::empty());
            }
            let mut nested = NbtValue::Compound(empty);
            match recurse_construct_nbt(&mut nested, map) {
                Ok(()) => Ok(nested),
                Err(e) => Err(e),
            }
        },
    }
}

fn is_integer_value(v: &JsonValue) -> (r: bool)
    ensures
        r == is_integer(v@),
{
    match v {
        JsonValue::Number(JsonNumber::PosInt(_)) => true,
        JsonValue::Number(JsonNumber::NegInt(_)) => true,
        _ => false,
    }
}

/// Converts a JSON array: empty to an empty list; all integers to an int
/// array (all fit 32 bits) or a long array; anything else element by
/// element to a list.
fn convert_array(arr: &Vec<JsonValue>) -> (r: Result<NbtValue, RegistryDataError>)
    ensures
        match json_to_nbt_spec(JsonView::Array(json_seq_view(arr@))) {
            Some(v) => r matches Ok(x) && x@ == v,
            None => r == Err::<NbtValue, RegistryDataError>(RegistryDataError::InvalidJson),
        },
    decreases arr, 0int,
{
    let ghost view = json_seq_view(arr@);
    if arr.len() == 0 {
        let empty: Vec<NbtValue> = Vec::new();
        proof {
            lemma_nbt_list_view(empty);
            assert(nbt_seq_view(Seq::<NbtValue>::empty()) =~= Seq::empty());
        }
        return Ok(NbtValue::List(empty));
    }
    let mut all_integers = true;
    let mut i: usize = 0;
    while i < arr.len()
        invariant
            i <= arr@.len(),
            view == json_seq_view(arr@),
            all_integers == forall|j: int| 0 <= j < i ==> is_integer(#[trigger] view[j]),
        decreases arr@.len() - i,
    {
        assert(view[i as int] == arr@[i as int]@);
        if !is_integer_value(&arr[i]) {
            all_integers = false;
        }
        i = i + 1;
        assert(all_integers == forall|j: int| 0 <= j < i ==> is_integer(#[trigger] view[j]));
    }
    if all_integers {
        let mut ints: Vec<i32> = Vec::new();
        let mut longs: Vec<i64> = Vec::new();
        let mut all_i32 = true;
        let mut i: usize = 0;
        while i < arr.len()
            invariant
                i <= arr@.len(),
                view == json_seq_view(arr@),
                forall|j: int| 0 <= j < arr@.len() ==> is_integer(#[trigger] view[j]),
                forall|j: int| 0 <= j < i ==> element_integer(#[trigger] view[j]) is Some,
                longs@ == Seq::new(i as nat, |j: int| element_integer(view[j])->0),
                all_i32 == forall|j: int| 0 <= j < i ==> fits_i32(#[trigger] longs@[j]),
                all_i32 ==> ints@ == Seq::new(i as nat, |j: int| longs@[j] as i32),
            decreases arr@.len() - i,
        {
            assert(is_integer(view[i as int]));
            let x: i64 = match &arr[i] {
                JsonValue::Number(JsonNumber::PosInt(u)) => {
                    if *u <= i64::MAX as u64 {
                        *u as i64
                    } else {
                        assert(element_integer(view[i as int]) is None);
                        return Err(RegistryDataError::InvalidJson);
                    }
                },
                JsonValue::Number(JsonNumber::NegInt(v)) => *v,
                _ => {
                    proof {
                        assert(false);
                    }
                    0
                },
            };
            let ghost prev = longs@;
            let ghost prev_all = all_i32;
            if i32::MIN as i64 <= x && x <= i32::MAX as i64 {
                ints.push(x as i32);
                longs.push(x);
            } else {
                all_i32 = false;
                longs.push(x);
            }
            i = i + 1;
            assert(longs@ =~= Seq::new(i as nat, |j: int| element_integer(view[j])->0));
            assert(longs@ == prev.push(x));
            proof {
            if all_i32 {
                assert forall|j: int| 0 <= j < i implies fits_i32(#[trigger] longs@[j]) by {
                    if j < i - 1 {
                        assert(longs@[j] == prev[j]);
                    }
                }
            } else if !prev_all {
                let w = choose|j: int| 0 <= j < i - 1 && !fits_i32(#[trigger] prev[j]);
                assert(longs@[w] == prev[w]);
            } else {
                assert(!fits_i32(longs@[i - 1]));
            }
            }
            assert(all_i32 ==> ints@ =~= Seq::new(i as nat, |j: int| longs@[j] as i32));
        }
        if all_i32 {
            Ok(NbtValue::IntArray(ints))
        } else {
            Ok(NbtValue::LongArray(longs))
        }
    } else {
        let mut items: Vec<NbtValue> = Vec::new();
        let mut i: usize = 0;
        assert(view.take(0) =~= Seq::<JsonView>::empty());
        assert(nbt_seq_view(items@) =~= Seq::<NbtView>::empty());
        while i < arr.len()
            invariant
                i <= arr@.len(),
                view == json_seq_view(arr@),
                list_spec(view.take(i as int)) == Some(nbt_seq_view(items@)),
            decreases arr@.len() - i,
        {
            assert(view.take(i + 1).drop_last() =~= view.take(i as int));
            assert(view.take(i + 1).last() == arr@[i as int]@);
            let item = match json_to_nbt(&arr[i]) {
                Ok(item) => item,
                Err(e) => {
                    proof {
                        lemma_list_spec_prefix_none(view, i + 1);
                    }
                    return Err(e);
                },
            };
            items.push(item);
            i = i + 1;
            assert(nbt_seq_view(items@) =~= nbt_seq_view(items@.drop_last()).push(item@));
        }
        assert(view.take(arr@.len() as int) =~= view);
        proof {
            lemma_nbt_list_view(items);
        }
        Ok(NbtValue::List(items))
    }
}

/// Sets each member of `obj`, converted to NBT, into the compound
/// `compound`; a value that is not a compound is refused, and so is a
/// member without an NBT form, after the members before it were set.
fn recurse_construct_nbt(compound: &mut NbtValue, obj: &Vec<(String, JsonValue)>) -> (r: Result<
    (),
    RegistryDataError,
>)
    ensures
        match old(compound)@ {
            NbtView::Compound(start) => match compound_spec(start, members_view(obj@)) {
                Some(entries) => r is Ok && final(compound)@ == NbtView::Compound(entries),
                None => r == Err::<(), RegistryDataError>(RegistryDataError::InvalidJson)
                    && exists|k: int|
                    0 <= k < obj@.len() && (compound_spec(start, members_view(obj@).take(k)) matches Some(
                        entries,
                    ) && final(compound)@ == NbtView::Compound(entries) && json_to_nbt_spec(
                        (#[trigger] obj@[k]).1@,
                    ) is None),
            },
            _ => r == Err::<(), RegistryDataError>(RegistryDataError::InvalidJson)
                && *final(compound) == *old(compound),
        },
    decreases obj, 1int,
{
    match compound {
        NbtValue::Compound(map) => {
            proof {
                lemma_nbt_compound_view(*map);
            }
            let r = insert_members(map, obj);
            proof {
                lemma_nbt_compound_view(*map);
            }
            r
        },
        _ => Err(RegistryDataError::InvalidJson),
    }
}

/// Sets each member of `obj`, converted to NBT, into the entries `map`,
/// stopping at the first member without an NBT form.
fn insert_members(map: &mut Vec<(String, NbtValue)>, obj: &Vec<(String, JsonValue)>) -> (r: Result<
    (),
    RegistryDataError,
>)
    ensures
        match compound_spec(entries_view(old(map)@), members_view(obj@)) {
            Some(entries) => r is Ok && entries_view(final(map)@) == entries,
            None => r == Err::<(), RegistryDataError>(RegistryDataError::InvalidJson)
                && exists|k: int|
                0 <= k < obj@.len() && (compound_spec(
                    entries_view(old(map)@),
                    members_view(obj@).take(k),
                ) matches Some(entries) && entries_view(final(map)@) == entries && json_to_nbt_spec(
                    (#[trigger] obj@[k]).1@,
                ) is None),
        },
    decreases obj, 0int,
{
    let ghost members = members_view(obj@);
    let ghost start = entries_view(map@);
    let mut i: usize = 0;
    assert(members.take(0) =~= Seq::<(Seq<char>, JsonView)>::empty());
    while i < obj.len()
        invariant
            i <= obj@.len(),
            members == members_view(obj@),
            start == entries_view(old(map)@),
            compound_spec(start, members.take(i as int)) == Some(entries_view(map@)),
        decreases obj@.len() - i,
    {
        assert(members.take(i + 1).drop_last() =~= members.take(i as int));
        assert(members.take(i + 1).last() == (obj@[i as int].0@, obj@[i as int].1@));
        let value = match json_to_nbt(&obj[i].1) {
            Ok(value) => value,
            Err(e) => {
                proof {
                    lemma_compound_spec_prefix_none(start, members, i + 1);
                    assert(json_to_nbt_spec((obj@[i as int]).1@) is None);
                }
                return Err(e);
            },
        };
        compound_insert_exec(map, obj[i].0.clone(), value);
        i = i + 1;
    }
    assert(members.take(obj@.len() as int) =~= members);
    Ok(())
}

/// Sets `key` to `value` in a compound's entries.
fn compound_insert_exec(map: &mut Vec<(String, NbtValue)>, key: String, value: NbtValue)
    ensures
        entries_view(final(map)@) == compound_insert(entries_view(old(map)@), key@, value@),
{
    let ghost old_view = entries_view(map@);
    let mut i: usize = 0;
    while i < map.len()
        invariant
            i <= map@.len(),
            map@ == old(map)@,
            old_view == entries_view(map@),
            forall|j: int| 0 <= j < i ==> old_view[j].0 != key@,
        ensures
            i < map@.len() ==> old_view[i as int].0 == key@,
        decreases map@.len() - i,
    {
        if map[i].0 == key {
            break ;
        }
        i = i + 1;
    }
    if i < map.len() {
        proof {
            let c = choose|c: int|
                0 <= c < old_view.len() && old_view[c].0 == key@ && forall|j: int|
                    0 <= j < c ==> old_view[j].0 != key@;
            assert(old_view[i as int].0 == key@);
            if c < i {
            } else if c > i {
                assert(old_view[i as int].0 != key@);
            }
        }
        map.set(i, (key, value));
        assert(entries_view(map@) =~= old_view.update(i as int, (key@, value@)));
    } else {
        map.push((key, value));
        assert(entries_view(map@) =~= old_view.push((key@, value@)));
    }
}

/// The NBT of a registry entry's JSON: its root must be an object, which
/// becomes a compound.
pub fn registry_entry_nbt(json: &JsonValue) -> (r: Result<NbtValue, RegistryDataError>)
    ensures
        match json@ {
            JsonView::Object(members) => match compound_spec(Seq::empty(), members) {
                Some(entries) => r matches Ok(x) && x@ == NbtView::Compound(entries),
                None => r == Err::<NbtValue, RegistryDataError>(RegistryDataError::InvalidJson),
            },
            _ => r == Err::<NbtValue, RegistryDataError>(RegistryDataError::InvalidJson),
        },
{
    proof {
        lemma_json_view_unfold(*json);
    }
    match json {
        JsonValue::Object(obj) => {
            let empty: Vec<(String, NbtValue)> = Vec::new();
            proof {
                lemma_nbt_compound_view(empty);
                assert(entries_view(Seq::<(String, NbtValue)>::empty()) =~= Seq::empty());
            }
            let mut compound = NbtValue::Compound(empty);
            match recurse_construct_nbt(&mut compound, obj) {
                Ok(()) => Ok(compound),
                Err(e) => Err(e),
            }
        },
        _ => Err(RegistryDataError::InvalidJson),
    }
}

} // verus!
