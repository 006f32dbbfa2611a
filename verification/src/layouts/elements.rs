//! Layout of the element segments of tables.
use crate::emit::modify::wasm_emitter::{
    fresh, lemma_after_at_end, lemma_after_twice, EncodeError, Encoder, SectionList,
};
use crate::emit::relocation::encode::{fixed_leb, lemma_fixed_leb_len};
use crate::index::{grown, slot_at, GappedMap, PrimaryMap, ReservedValue, Temp, TempIndex};
use crate::layouts::{
    operators_from, placement_of, PartId, PlacementError, SegmentId, SegmentPlacement,
    VirtualSpaceId,
};
use crate::raw::{ObjectReader, RawElement, RawElementItems, RawElementKind};
use crate::text::{decimal, decimal_string};
use crate::typed::{FunctionRef, GlobalRef, TableRef};
use vstd::prelude::*;

verus! {

/// Index of an item in its table.
#[derive(Clone, Copy, Debug, PartialEq, Eq, PartialOrd, Ord, Hash, Structural)]
pub struct ElementItemId {
    pub id: u32,
}

impl TempIndex for ElementItemId {
    open spec fn id(self) -> u32 {
        self.id
    }

    proof fn lemma_id_injective(a: Self, b: Self) {
    }

    fn from_raw(value: u32) -> (r: Self) {
        ElementItemId { id: value }
    }

    fn as_u32(&self) -> (r: u32) {
        self.id
    }
}

impl ReservedValue for ElementItemId {
    open spec fn is_reserved_spec(&self) -> bool {
        self.id() == u32::MAX
    }

    fn reserved_value() -> (r: Self) {
        Self::reserved()
    }

    fn is_reserved_value(&self) -> (r: bool) {
        self.is_reserved()
    }
}

impl Default for ElementItemId {
    fn default() -> (r: Self)
        ensures
            r.id() == u32::MAX,
    {
        Self::reserved()
    }
}

/// A segment of a virtual space.
#[derive(Debug, PartialEq, Eq)]
pub struct ElementSegmentSpec {
    pub vs_id: VirtualSpaceId,
    pub name: String,
}

/// An item of an element segment.
#[derive(Debug, PartialEq, Eq)]
pub struct ElementInTable<T> {
    pub item: T,
    pub segment_id: SegmentId,
}

/// The place of an item.
#[derive(Copy, Debug, Clone, Eq, PartialEq, Structural)]
pub struct ElementItemPlace {
    pub segment_id: SegmentId,
    pub part_id: PartId,
}

impl ReservedValue for ElementItemPlace {
    open spec fn is_reserved_spec(&self) -> bool {
        self.segment_id.is_reserved_spec() && self.part_id.is_reserved_spec()
    }

    fn reserved_value() -> (r: Self) {
        ElementItemPlace { segment_id: SegmentId::reserved(), part_id: PartId::reserved() }
    }

    fn is_reserved_value(&self) -> (r: bool) {
        self.segment_id.is_reserved() && self.part_id.is_reserved()
    }
}

/// How elements are placed.
#[derive(Copy, Clone, Debug, PartialEq, Eq, Hash, PartialOrd, Ord)]
pub enum ElementKind<OwnerId, GR> {
    /// Placed in a table when the module is instantiated.
    Active { table_ref: OwnerId, location: SegmentPlacement<GR> },
    /// Placed at run time.
    Passive,
    /// Not placed, but declared as used.
    Declared,
}

impl<OwnerId, GR: Copy> ElementKind<OwnerId, GR> {
    pub fn is_active(&self) -> (r: bool)
        ensures
            r == (*self is Active),
    {
        match self {
            ElementKind::Active { .. } => true,
            _ => false,
        }
    }

    pub fn location(&self) -> (r: Option<SegmentPlacement<GR>>)
        ensures
            r == match *self {
                ElementKind::Active { location, .. } => Some(location),
                _ => None,
            },
    {
        match self {
            ElementKind::Active { location, .. } => Some(*location),
            _ => None,
        }
    }

    pub fn table(&self) -> (r: Option<OwnerId>)
        where OwnerId: Copy
        ensures
            r == match *self {
                ElementKind::Active { table_ref, .. } => Some(table_ref),
                _ => None,
            },
    {
        match self {
            ElementKind::Active { table_ref, .. } => Some(*table_ref),
            _ => None,
        }
    }

    /// Whether functions can be called on the table and the global.
    pub open spec fn can_map<NewOwnerId, NewGR, F, U>(self, map_owner: F, map_global: U) -> bool
        where F: FnOnce(OwnerId) -> NewOwnerId, U: FnOnce(GR) -> NewGR
    {
        self matches ElementKind::Active { table_ref, location } ==> {
            &&& call_requires(map_owner, (table_ref,))
            &&& location matches SegmentPlacement::GotBased { global, .. } ==> call_requires(
                map_global,
                (global,),
            )
        }
    }

    /// Whether `mapped` has the table and the global that functions return, and is the same
    /// otherwise.
    pub open spec fn is_mapped<NewOwnerId, NewGR, F, U>(
        self,
        map_owner: F,
        map_global: U,
        mapped: ElementKind<NewOwnerId, NewGR>,
    ) -> bool
        where F: FnOnce(OwnerId) -> NewOwnerId, U: FnOnce(GR) -> NewGR
    {
        match (self, mapped) {
            (
                ElementKind::Active { table_ref: from, location: a },
                ElementKind::Active { table_ref: to, location: b },
            ) => call_ensures(map_owner, (from,), to) && match (a, b) {
                (
                    SegmentPlacement::GotBased { global: g, offset: x },
                    SegmentPlacement::GotBased { global: h, offset: y },
                ) => call_ensures(map_global, (g,), h) && x == y,
                (
                    SegmentPlacement::ConstantOffset(x),
                    SegmentPlacement::ConstantOffset(y),
                ) => x == y,
                _ => false,
            },
            (ElementKind::Passive, ElementKind::Passive) => true,
            (ElementKind::Declared, ElementKind::Declared) => true,
            _ => false,
        }
    }

    /// Replaces the table and the global.
    pub fn map_ids<NewOwnerId, NewGR, F, U>(self, map_owner: F, map_global: U) -> (r: ElementKind<
        NewOwnerId,
        NewGR,
    >)
        where F: FnOnce(OwnerId) -> NewOwnerId, U: FnOnce(GR) -> NewGR
        requires
            self.can_map(map_owner, map_global),
        ensures
            self.is_mapped(map_owner, map_global, r),
    {
        match self {
            ElementKind::Active { table_ref, location } => ElementKind::Active {
                table_ref: map_owner(table_ref),
                location: match location {
                    SegmentPlacement::GotBased { global, offset } => SegmentPlacement::GotBased {
                        global: map_global(global),
                        offset,
                    },
                    SegmentPlacement::ConstantOffset(offset) => {
                        SegmentPlacement::ConstantOffset(offset)
                    },
                },
            },
            ElementKind::Passive => ElementKind::Passive,
            ElementKind::Declared => ElementKind::Declared,
        }
    }
}

/// An element segment with its items.
#[verifier::reject_recursive_types(T)]
#[derive(Debug, PartialEq, Eq)]
pub struct SealedElementSegment<T> {
    pub parts: PrimaryMap<PartId, T>,
    pub kind: ElementKind<TableRef, GlobalRef>,
    pub name: String,
}

/// A layout in which every item has its place.
#[verifier::reject_recursive_types(T)]
#[derive(Debug, PartialEq, Eq)]
pub struct ElementLayoutSealed<T> {
    pub segments: PrimaryMap<SegmentId, SealedElementSegment<T>>,
}

pub type IndirectFunctionsSealed = ElementLayoutSealed<FunctionRef>;

pub type IndirectFunctionsBuilder = ElementLayoutBuilder<Temp<FunctionRef>>;

/// The items of a segment, in order.
pub open spec fn elements_of<T>(items: Seq<ElementInTable<T>>, segment: int) -> Seq<T>
    decreases items.len(),
{
    if items.len() == 0 {
        Seq::empty()
    } else {
        let rest = elements_of(items.drop_last(), segment);
        if items.last().segment_id.id() == segment {
            rest.push(items.last().item)
        } else {
            rest
        }
    }
}

/// Builder of an element layout.
#[verifier::reject_recursive_types(T)]
#[derive(Debug, PartialEq, Eq)]
pub struct ElementLayoutBuilder<T> {
    pub virtual_spaces: PrimaryMap<VirtualSpaceId, ElementKind<Temp<TableRef>, Temp<GlobalRef>>>,
    pub segments: PrimaryMap<SegmentId, ElementSegmentSpec>,
    pub items: Vec<ElementInTable<T>>,
}

impl<T> ElementLayoutBuilder<T> {
    pub fn new() -> (r: Self)
        ensures
            r.virtual_spaces@.len() == 0,
            r.segments@.len() == 0,
            r.items@.len() == 0,
    {
        ElementLayoutBuilder {
            virtual_spaces: PrimaryMap::new(),
            segments: PrimaryMap::new(),
            items: Vec::new(),
        }
    }

    /// Replaces every item by what a function returns for it.
    pub fn map_elements<U, F: Fn(T) -> U>(self, map_item: F) -> (r: ElementLayoutBuilder<U>)
        requires
            forall|i: int|
                0 <= i < self.items@.len() ==> call_requires(
                    map_item,
                    ((#[trigger] self.items@[i]).item,),
                ),
        ensures
            r.virtual_spaces@ == self.virtual_spaces@,
            r.segments@ == self.segments@,
            r.items@.len() == self.items@.len(),
            forall|i: int|
                0 <= i < r.items@.len() ==> (#[trigger] r.items@[i]).segment_id
                    == self.items@[i].segment_id && call_ensures(
                    map_item,
                    (self.items@[i].item,),
                    r.items@[i].item,
                ),
    {
        let ghost all = self.items@;
        let mut items: Vec<ElementInTable<U>> = Vec::new();
        for element in it: self.items
            invariant
                it.seq() == all,
                items@.len() == it.index(),
                forall|i: int|
                    0 <= i < all.len() ==> call_requires(map_item, ((#[trigger] all[i]).item,)),
                forall|i: int|
                    0 <= i < items@.len() ==> (#[trigger] items@[i]).segment_id
                        == all[i].segment_id && call_ensures(
                        map_item,
                        (all[i].item,),
                        items@[i].item,
                    ),
        {
            assert(element == all[it.index() as int]);
            let segment_id = element.segment_id;
            items.push(ElementInTable { item: map_item(element.item), segment_id });
        }
        ElementLayoutBuilder {
            virtual_spaces: self.virtual_spaces,
            segments: self.segments,
            items,
        }
    }

    /// Gives every item its place.
    pub fn seal<F, U>(self, map_table: F, map_global: U) -> (r: ElementLayoutSealed<T>)
        where F: Fn(Temp<TableRef>) -> TableRef, U: Fn(Temp<GlobalRef>) -> GlobalRef
        requires
            self.segments@.len() < u32::MAX,
            self.items@.len() < u32::MAX,
            forall|v: int|
                0 <= v < self.virtual_spaces@.len() ==> (#[trigger] self.virtual_spaces@[v]).can_map(
                    map_table,
                    map_global,
                ),
            forall|s: int|
                0 <= s < self.segments@.len() ==> (#[trigger] self.segments@[s]).vs_id.id()
                    < self.virtual_spaces@.len(),
            forall|i: int|
                0 <= i < self.items@.len() ==> (#[trigger] self.items@[i]).segment_id.id()
                    < self.segments@.len(),
        ensures
            r.segments@.len() == self.segments@.len(),
            forall|s: int|
                0 <= s < r.segments@.len() ==> {
                    let segment = #[trigger] r.segments@[s];
                    &&& segment.name@ == self.segments@[s].name@
                    &&& segment.parts@ == elements_of(self.items@, s)
                    &&& self.virtual_spaces@[self.segments@[s].vs_id.id() as int].is_mapped(
                        map_table,
                        map_global,
                        segment.kind,
                    )
                },
    {
        let mut segments: PrimaryMap<SegmentId, SealedElementSegment<T>> = PrimaryMap::new();
        let mut kinds: Vec<ElementKind<TableRef, GlobalRef>> = Vec::new();
        let mut v: usize = 0;
        while v < self.virtual_spaces.len()
            invariant
                v <= self.virtual_spaces@.len(),
                kinds@.len() == v,
                forall|v: int|
                    0 <= v < self.virtual_spaces@.len() ==> (
                    #[trigger] self.virtual_spaces@[v]).can_map(map_table, map_global),
                forall|w: int|
                    0 <= w < v ==> self.virtual_spaces@[w].is_mapped(
                        map_table,
                        map_global,
                        #[trigger] kinds@[w],
                    ),
            decreases self.virtual_spaces@.len() - v,
        {
            let space = self.virtual_spaces.as_slice()[v];
            assert(self.virtual_spaces@[v as int].can_map(map_table, map_global));
            let kind = match space {
                ElementKind::Active { table_ref, location } => ElementKind::Active {
                    table_ref: map_table(table_ref),
                    location: match location {
                        SegmentPlacement::GotBased { global, offset } => {
                            SegmentPlacement::GotBased { global: map_global(global), offset }
                        },
                        SegmentPlacement::ConstantOffset(offset) => {
                            SegmentPlacement::ConstantOffset(offset)
                        },
                    },
                },
                ElementKind::Passive => ElementKind::Passive,
                ElementKind::Declared => ElementKind::Declared,
            };
            kinds.push(kind);
            v = v + 1;
        }
        let ghost specs = self.segments@;
        let ghost items = self.items@;
        let mut s: usize = 0;
        assert(items.take(0) =~= Seq::<ElementInTable<T>>::empty());
        while s < self.segments.len()
            invariant
                s <= specs.len() < u32::MAX,
                specs == self.segments@,
                items.take(0) =~= Seq::<ElementInTable<T>>::empty(),
                kinds@.len() == self.virtual_spaces@.len(),
                forall|s: int|
                    0 <= s < specs.len() ==> (#[trigger] specs[s]).vs_id.id() < kinds@.len(),
                segments@.len() == s,
                forall|t: int|
                    0 <= t < s ==> {
                        let segment = #[trigger] segments@[t];
                        &&& segment.name@ == specs[t].name@
                        &&& segment.parts@ == elements_of(items.take(0), t)
                        &&& segment.kind == kinds@[specs[t].vs_id.id() as int]
                    },
            decreases specs.len() - s,
        {
            let spec = &self.segments.as_slice()[s];
            assert(specs[s as int].vs_id.id() < kinds@.len());
            let _ = segments.push(
                SealedElementSegment {
                    parts: PrimaryMap::new(),
                    kind: kinds[spec.vs_id.index()],
                    name: spec.name.clone(),
                },
            );
            s = s + 1;
        }
        for element in it: self.items
            invariant
                it.seq() == items,
                items.len() < u32::MAX,
                segments@.len() == specs.len(),
                forall|i: int|
                    0 <= i < items.len() ==> (#[trigger] items[i]).segment_id.id() < specs.len(),
                forall|t: int|
                    0 <= t < specs.len() ==> {
                        let segment = #[trigger] segments@[t];
                        &&& segment.name@ == specs[t].name@
                        &&& segment.parts@ == elements_of(items.take(it.index() as int), t)
                        &&& segment.kind == kinds@[specs[t].vs_id.id() as int]
                    },
        {
            let ghost before = segments@;
            let ghost done = items.take(it.index() as int);
            proof {
                assert(element == items[it.index() as int]);
                assert(items.take(it.index() + 1).drop_last() =~= done);
                lemma_elements_of_len(done, element.segment_id.id() as int);
                assert(before[element.segment_id.id() as int].parts@ == elements_of(
                    done,
                    element.segment_id.id() as int,
                ));
            }
            let _ = segments.at_mut(element.segment_id).parts.push(element.item);
            proof {
                assert forall|t: int| 0 <= t < specs.len() implies {
                    let segment = #[trigger] segments@[t];
                    &&& segment.name@ == specs[t].name@
                    &&& segment.parts@ == elements_of(items.take(it.index() + 1), t)
                    &&& segment.kind == kinds@[specs[t].vs_id.id() as int]
                } by {
                    assert(before[t].parts@ == elements_of(done, t));
                }
            }
        }
        assert(items.take(items.len() as int) =~= items);
        ElementLayoutSealed { segments }
    }
}

proof fn lemma_elements_of_len<T>(items: Seq<ElementInTable<T>>, segment: int)
    ensures
        elements_of(items, segment).len() <= items.len(),
    decreases items.len(),
{
    if items.len() > 0 {
        lemma_elements_of_len(items.drop_last(), segment);
    }
}

/// Why elements cannot be read.
#[derive(Debug, Clone, Copy, PartialEq, Eq, Structural)]
pub enum ElementError {
    /// The items are not of the expected type.
    WrongItems,
    /// The offset expression of the segment is no placement.
    Placement(PlacementError),
}

/// Items of element segments.
pub trait ElementType: Sized {
    /// The start of an encoded segment, up to the number of its items.
    spec fn start_bytes(kind: ElementKind<TableRef, GlobalRef>) -> Seq<u8>;

    /// The encoded item.
    spec fn item_bytes(&self) -> Seq<u8>;

    /// Whether stored items are of the type.
    spec fn decodable(items: RawElementItems) -> bool;

    /// Whether stored items are the given ones.
    spec fn is_decoded(items: RawElementItems, decoded: Seq<Self>) -> bool;

    fn decode(items: &RawElementItems) -> (r: Result<Vec<Self>, ElementError>)
        ensures
            match r {
                Ok(decoded) => Self::decodable(*items) && Self::is_decoded(*items, decoded@),
                Err(error) => !Self::decodable(*items) && error is WrongItems,
            },
    ;

    fn encode_segment_start(kind: ElementKind<TableRef, GlobalRef>, encoder: &mut Encoder)
        requires
            old(encoder).wf(),
            kind matches ElementKind::Active { location, .. } ==> location.offset_spec()
                <= i32::MAX,
            old(encoder)@.has_room(Self::start_bytes(kind).len() as int),
        ensures
            final(encoder).wf(),
            final(encoder)@ == old(encoder)@.after(Self::start_bytes(kind)),
    ;

    fn encode_item(item: &Self, encoder: &mut Encoder)
        requires
            old(encoder).wf(),
            old(encoder)@.has_room(item.item_bytes().len() as int),
        ensures
            final(encoder).wf(),
            final(encoder)@ == old(encoder)@.after(item.item_bytes()),
    ;
}

impl ElementType for FunctionRef {
    open spec fn start_bytes(kind: ElementKind<TableRef, GlobalRef>) -> Seq<u8> {
        match kind {
            ElementKind::Active { table_ref, location } => if table_ref.id() == 0 {
                seq![0x00u8] + location.init_expr()
            } else {
                seq![0x02u8] + fixed_leb(table_ref.id() as int, 5) + location.init_expr() + seq![
                    0x00u8,
                ]
            },
            ElementKind::Passive => seq![0x01u8, 0x00u8],
            ElementKind::Declared => seq![0x03u8, 0x00u8],
        }
    }

    open spec fn item_bytes(&self) -> Seq<u8> {
        fixed_leb(self.id() as int, 5)
    }

    open spec fn decodable(items: RawElementItems) -> bool {
        items is Functions
    }

    open spec fn is_decoded(items: RawElementItems, decoded: Seq<Self>) -> bool {
        items matches RawElementItems::Functions(indices) && decoded.len() == indices@.len()
            && forall|i: int|
            0 <= i < decoded.len() ==> (#[trigger] decoded[i]).id() == indices@[i]
    }

    fn decode(items: &RawElementItems) -> (r: Result<Vec<Self>, ElementError>) {
        match items {
            RawElementItems::Functions(indices) => {
                let mut result: Vec<FunctionRef> = Vec::new();
                let mut i: usize = 0;
                while i < indices.len()
                    invariant
                        i <= indices@.len(),
                        result@.len() == i,
                        forall|j: int|
                            0 <= j < i ==> (#[trigger] result@[j]).id() == indices@[j],
                    decreases indices@.len() - i,
                {
                    result.push(FunctionRef::from_raw(indices[i]));
                    i = i + 1;
                }
                Ok(result)
            },
            RawElementItems::Expressions => Err(ElementError::WrongItems),
        }
    }

    fn encode_segment_start(kind: ElementKind<TableRef, GlobalRef>, encoder: &mut Encoder) {
        broadcast use lemma_after_twice;

        proof {
            encoder.lemma_valid();
        }
        match kind {
            ElementKind::Active { table_ref, location } => {
                proof {
                    lemma_fixed_leb_len(table_ref.id() as int, 5);
                }
                if table_ref.as_u32() == 0 {
                    encoder.push_byte(0x00);
                } else {
                    encoder.push_byte(0x02);
                    let _ = encoder.encode_leb_5byte(table_ref.as_u32());
                }
                let expr = location.to_init_expr();
                encoder.encode_const_expr(expr.as_slice());
                if table_ref.as_u32() != 0 {
                    encoder.push_byte(0x00);
                }
            },
            ElementKind::Passive => {
                encoder.push_byte(0x01);
                encoder.push_byte(0x00);
                assert(seq![0x01u8] + seq![0x00u8] =~= seq![0x01u8, 0x00u8]);
            },
            ElementKind::Declared => {
                encoder.push_byte(0x03);
                encoder.push_byte(0x00);
                assert(seq![0x03u8] + seq![0x00u8] =~= seq![0x03u8, 0x00u8]);
            },
        }
    }

    fn encode_item(item: &Self, encoder: &mut Encoder) {
        proof {
            lemma_fixed_leb_len(item.id() as int, 5);
        }
        let _ = encoder.encode_leb_5byte(item.as_u32());
    }
}

/// How a stored element segment is placed, if its offset expression is a placement.
pub open spec fn stored_element_kind(kind: RawElementKind) -> Result<
    ElementKind<TableRef, GlobalRef>,
    PlacementError,
> {
    match kind {
        RawElementKind::Passive => Ok(ElementKind::Passive),
        RawElementKind::Declared => Ok(ElementKind::Declared),
        RawElementKind::Active { table_index, offset_expr } => match operators_from(
            offset_expr@,
            0,
            4,
        ) {
            None => Err(PlacementError::Malformed),
            Some(ops) => match placement_of(ops) {
                None => Err(PlacementError::TooComplex),
                Some(location) => Ok(
                    ElementKind::Active {
                        table_ref: TableRef {
                            id: match table_index {
                                Some(index) => index,
                                None => 0,
                            },
                        },
                        location,
                    },
                ),
            },
        },
    }
}

/// How a stored element segment is placed; without a table it is the first one.
pub fn element_kind_to_location(element_kind: &RawElementKind) -> (r: Result<
    ElementKind<TableRef, GlobalRef>,
    PlacementError,
>)
    ensures
        r == stored_element_kind(*element_kind),
{
    match element_kind {
        RawElementKind::Passive => Ok(ElementKind::Passive),
        RawElementKind::Declared => Ok(ElementKind::Declared),
        RawElementKind::Active { table_index, offset_expr } => {
            match SegmentPlacement::try_from_const_expr(offset_expr.as_slice()) {
                Ok(location) => {
                    let index: u32 = match table_index {
                        Some(index) => *index,
                        None => 0,
                    };
                    Ok(ElementKind::Active { table_ref: TableRef::from_raw(index), location })
                },
                Err(error) => Err(error),
            }
        },
    }
}

/// The error that reading a stored element segment gives.
pub open spec fn element_error<T: ElementType>(element: RawElement) -> Option<ElementError> {
    match stored_element_kind(element.kind) {
        Err(error) => Some(ElementError::Placement(error)),
        Ok(_) => if T::decodable(element.items) {
            None
        } else {
            Some(ElementError::WrongItems)
        },
    }
}

/// The error of the first stored element segment that cannot be read.
pub open spec fn first_element_error<T: ElementType>(elements: Seq<RawElement>) -> Option<
    ElementError,
>
    decreases elements.len(),
{
    if elements.len() == 0 {
        None
    } else {
        match first_element_error::<T>(elements.drop_last()) {
            Some(error) => Some(error),
            None => element_error::<T>(elements.last()),
        }
    }
}

proof fn lemma_element_error_stays<T: ElementType>(elements: Seq<RawElement>, k: int)
    requires
        0 <= k <= elements.len(),
        first_element_error::<T>(elements.take(k)) is Some,
    ensures
        first_element_error::<T>(elements) == first_element_error::<T>(elements.take(k)),
    decreases elements.len(),
{
    if k < elements.len() {
        assert(elements.drop_last().take(k) =~= elements.take(k));
        lemma_element_error_stays::<T>(elements.drop_last(), k);
    } else {
        assert(elements.take(k) =~= elements);
    }
}

/// Whether a sealed segment is a stored one.
pub open spec fn is_stored_element<T: ElementType>(
    segment: SealedElementSegment<T>,
    element: RawElement,
    s: int,
) -> bool {
    &&& stored_element_kind(element.kind) == Ok::<
        ElementKind<TableRef, GlobalRef>,
        PlacementError,
    >(segment.kind)
    &&& T::is_decoded(element.items, segment.parts@)
    &&& segment.name@ == decimal(s as nat)
}

/// The bytes of items, one after the other.
pub open spec fn items_bytes<T: ElementType>(items: Seq<T>) -> Seq<u8>
    decreases items.len(),
{
    if items.len() == 0 {
        Seq::empty()
    } else {
        items_bytes(items.drop_last()) + items.last().item_bytes()
    }
}

/// The encoded segment: how it is placed, the number of its items, the items.
pub open spec fn element_encoding<T: ElementType>(segment: SealedElementSegment<T>) -> Seq<u8> {
    T::start_bytes(segment.kind) + fixed_leb(segment.parts@.len() as int, 5) + items_bytes(
        segment.parts@,
    )
}

/// The encoded segments, one after the other.
pub open spec fn elements_encoding<T: ElementType>(segments: Seq<SealedElementSegment<T>>) -> Seq<
    u8,
>
    decreases segments.len(),
{
    if segments.len() == 0 {
        Seq::empty()
    } else {
        elements_encoding(segments.drop_last()) + element_encoding(segments.last())
    }
}

proof fn lemma_items_bytes_len<T: ElementType>(items: Seq<T>, k: int)
    requires
        0 <= k <= items.len(),
    ensures
        items_bytes(items.take(k)).len() <= items_bytes(items).len(),
    decreases items.len(),
{
    if k < items.len() {
        lemma_items_bytes_len(items.drop_last(), k);
        assert(items.drop_last().take(k) =~= items.take(k));
    } else {
        assert(items.take(k) =~= items);
    }
}

proof fn lemma_elements_encoding_len<T: ElementType>(
    segments: Seq<SealedElementSegment<T>>,
    k: int,
)
    requires
        0 <= k <= segments.len(),
    ensures
        elements_encoding(segments.take(k)).len() <= elements_encoding(segments).len(),
    decreases segments.len(),
{
    if k < segments.len() {
        lemma_elements_encoding_len(segments.drop_last(), k);
        assert(segments.drop_last().take(k) =~= segments.take(k));
    } else {
        assert(segments.take(k) =~= segments);
    }
}

/// Encodes an element segment.
fn encode_segment<T: ElementType>(segment: &SealedElementSegment<T>, encoder: &mut Encoder)
    requires
        old(encoder).wf(),
        segment.kind matches ElementKind::Active { location, .. } ==> location.offset_spec()
            <= i32::MAX,
        segment.parts@.len() <= u32::MAX,
        old(encoder)@.has_room(element_encoding(*segment).len() as int),
    ensures
        final(encoder).wf(),
        final(encoder)@ == old(encoder)@.after(element_encoding(*segment)),
{
    let ghost before = encoder@;
    let ghost start = T::start_bytes(segment.kind);
    let ghost number = fixed_leb(segment.parts@.len() as int, 5);
    proof {
        encoder.lemma_valid();
        lemma_fixed_leb_len(segment.parts@.len() as int, 5);
    }
    T::encode_segment_start(segment.kind, encoder);
    let _ = encoder.encode_leb_5byte(segment.parts.len() as u32);
    let items = segment.parts.as_slice();
    let mut i: usize = 0;
    proof {
        lemma_after_twice(before, start, number);
        assert(items@.take(0) =~= Seq::<T>::empty());
        assert(start + number + items_bytes(items@.take(0)) =~= start + number);
    }
    while i < items.len()
        invariant
            i <= items@.len(),
            items@ == segment.parts@,
            before.valid(),
            before.has_room(element_encoding(*segment).len() as int),
            start == T::start_bytes(segment.kind),
            number == fixed_leb(segment.parts@.len() as int, 5),
            encoder.wf(),
            encoder@ == before.after(start + number + items_bytes(items@.take(i as int))),
        decreases items@.len() - i,
    {
        let ghost written = start + number + items_bytes(items@.take(i as int));
        proof {
            assert(items@.take(i + 1).drop_last() =~= items@.take(i as int));
            lemma_items_bytes_len(items@, i + 1);
        }
        T::encode_item(&items[i], encoder);
        proof {
            lemma_after_twice(before, written, items@[i as int].item_bytes());
            assert(written + items@[i as int].item_bytes() =~= start + number + items_bytes(
                items@.take(i + 1),
            ));
        }
        i = i + 1;
    }
    assert(items@.take(i as int) =~= items@);
}

impl<T: ElementType> ElementLayoutSealed<T> {
    /// The element segments of an object file.
    pub fn typed_from_reader(module: &ObjectReader) -> (r: Result<Self, ElementError>)
        requires
            module.elements@.len() < u32::MAX,
        ensures
            match first_element_error::<T>(module.elements@) {
                Some(error) => r matches Err(e) && e == error,
                None => r matches Ok(layout) && layout.segments@.len() == module.elements@.len()
                    && forall|s: int|
                    0 <= s < module.elements@.len() ==> is_stored_element(
                        #[trigger] layout.segments@[s],
                        module.elements@[s],
                        s,
                    ),
            },
    {
        let mut segments: PrimaryMap<SegmentId, SealedElementSegment<T>> = PrimaryMap::new();
        let ghost all = module.elements@;
        let mut s: usize = 0;
        assert(all.take(0) =~= Seq::<RawElement>::empty());
        while s < module.elements.len()
            invariant
                s <= all.len() < u32::MAX,
                all == module.elements@,
                first_element_error::<T>(all.take(s as int)) is None,
                segments@.len() == s,
                forall|t: int|
                    0 <= t < s ==> is_stored_element(#[trigger] segments@[t], all[t], t),
            decreases all.len() - s,
        {
            let element = &module.elements.as_slice()[s];
            proof {
                assert(all.take(s + 1).drop_last() =~= all.take(s as int));
                assert(all.take(s + 1).last() == *element);
            }
            let kind = match element_kind_to_location(&element.kind) {
                Ok(kind) => kind,
                Err(error) => {
                    proof {
                        lemma_element_error_stays::<T>(all, s + 1);
                    }
                    return Err(ElementError::Placement(error));
                },
            };
            let parts = match T::decode(&element.items) {
                Ok(parts) => parts,
                Err(error) => {
                    proof {
                        lemma_element_error_stays::<T>(all, s + 1);
                    }
                    return Err(error);
                },
            };
            let _ = segments.push(
                SealedElementSegment {
                    parts: PrimaryMap::from_vec(parts),
                    kind,
                    name: decimal_string(s as u64),
                },
            );
            s = s + 1;
        }
        assert(all.take(s as int) =~= all);
        Ok(ElementLayoutSealed { segments })
    }

    /// Writes every segment as an item of the element section.
    pub fn encode(&self, writer: &mut SectionList)
        requires
            old(writer).wf(),
            old(writer).enc().offset == old(writer).enc().end(),
            forall|s: int|
                0 <= s < self.segments@.len() ==> ((
                #[trigger] self.segments@[s]).kind matches ElementKind::Active { location, .. }
                    ==> location.offset_spec() <= i32::MAX) && self.segments@[s].parts@.len()
                    <= u32::MAX,
            old(writer).count() + self.segments@.len() <= u32::MAX,
            old(writer).enc().has_room(elements_encoding(self.segments@).len() as int),
        ensures
            final(writer).wf(),
            final(writer).enc().offset == final(writer).enc().end(),
            final(writer).enc().start == old(writer).enc().start,
            final(writer).enc().prefix == old(writer).enc().prefix,
            final(writer).head() == old(writer).head(),
            final(writer).count() == old(writer).count() + self.segments@.len(),
            final(writer).body() == old(writer).body() + elements_encoding(self.segments@),
    {
        let ghost all = self.segments@;
        let ghost before = *writer;
        let mut s: usize = 0;
        proof {
            assert(all.take(0) =~= Seq::<SealedElementSegment<T>>::empty());
            assert(before.body() + elements_encoding(all.take(0)) =~= before.body());
            before.lemma_parts();
        }
        while s < self.segments.len()
            invariant
                s <= all.len(),
                all == self.segments@,
                writer.wf(),
                forall|s: int|
                    0 <= s < all.len() ==> ((
                    #[trigger] all[s]).kind matches ElementKind::Active { location, .. }
                        ==> location.offset_spec() <= i32::MAX) && all[s].parts@.len() <= u32::MAX,
                writer.enc().valid(),
                writer.enc().offset == writer.enc().end(),
                writer.enc().start == before.enc().start,
                writer.enc().prefix == before.enc().prefix,
                writer.head() == before.head(),
                writer.count() == before.count() + s,
                before.count() + all.len() <= u32::MAX,
                before.enc().has_room(elements_encoding(all).len() as int),
                writer.body() == before.body() + elements_encoding(all.take(s as int)),
                writer.enc().offset == before.enc().offset + elements_encoding(
                    all.take(s as int),
                ).len(),
            decreases all.len() - s,
        {
            let segment = &self.segments.as_slice()[s];
            let ghost encoding = element_encoding(*segment);
            proof {
                assert(all.take(s + 1).drop_last() =~= all.take(s as int));
                assert(all.take(s + 1).last() == *segment);
                lemma_elements_encoding_len(all, s + 1);
                assert(all[s as int].parts@.len() <= u32::MAX);
            }
            let ghost offset = writer.enc().offset;
            let func = |encoder: &mut Encoder| -> (r: Result<(), EncodeError>)
                requires
                    encoder.wf(),
                    encoder@ == fresh(offset),
                ensures
                    r is Ok,
                    final(encoder).wf(),
                    final(encoder)@ == fresh(offset).after(encoding),
                {
                    encode_segment(segment, encoder);
                    Ok(())
                };
            let _ = writer.item_from_encoder(func);
            proof {
                lemma_after_at_end(fresh(offset), encoding);
                assert(Seq::<u8>::empty() + encoding =~= encoding);
                writer.lemma_parts();
                assert(writer.body() =~= before.body() + elements_encoding(all.take(s + 1)));
            }
            s = s + 1;
        }
        assert(all.take(s as int) =~= all);
    }
}

/// The first index of a segment in its table.
pub open spec fn element_start(kind: ElementKind<TableRef, GlobalRef>) -> int {
    match kind {
        ElementKind::Active { location, .. } => location.offset_spec() as int,
        _ => 0,
    }
}

/// The slots after the indices of the first items of a segment were entered.
pub open spec fn located(
    slots: Seq<Option<ElementItemId>>,
    items: Seq<FunctionRef>,
    start: int,
) -> Seq<Option<ElementItemId>>
    decreases items.len(),
{
    if items.len() == 0 {
        slots
    } else {
        let id = items.last().id();
        grown(located(slots, items.drop_last(), start), id as nat).update(
            id as int,
            Some(ElementItemId { id: (start + items.len() - 1) as u32 }),
        )
    }
}

/// The index of every function in its table; the last place of a function counts.
pub open spec fn locations(segments: Seq<SealedElementSegment<FunctionRef>>) -> Seq<
    Option<ElementItemId>,
>
    decreases segments.len(),
{
    if segments.len() == 0 {
        Seq::empty()
    } else {
        located(
            locations(segments.drop_last()),
            segments.last().parts@,
            element_start(segments.last().kind),
        )
    }
}

/// Whether a function stands at an index of its table.
pub open spec fn stands_at(
    segments: Seq<SealedElementSegment<FunctionRef>>,
    function: FunctionRef,
    s: int,
    k: int,
    index: int,
) -> bool {
    &&& 0 <= s < segments.len()
    &&& 0 <= k < segments[s].parts@.len()
    &&& segments[s].parts@[k] == function
    &&& match segments[s].kind {
        ElementKind::Active { location, .. } => index == location.offset_spec() + k,
        _ => index == k,
    }
}

proof fn lemma_located(
    slots: Seq<Option<ElementItemId>>,
    items: Seq<FunctionRef>,
    start: int,
    function: FunctionRef,
)
    ensures
        ({
            let found = slot_at(located(slots, items, start), function.id() as nat);
            if items.contains(function) {
                exists|k: int|
                    0 <= k < items.len() && #[trigger] items[k] == function && found == Some(
                        ElementItemId { id: (start + k) as u32 },
                    )
            } else {
                found == slot_at(slots, function.id() as nat)
            }
        }),
    decreases items.len(),
{
    if items.len() > 0 {
        let init = items.drop_last();
        let n = items.len() - 1;
        lemma_located(slots, init, start, function);
        if items[n] == function {
            assert(items.contains(function));
        } else {
            if items.contains(function) {
                let k = choose|k: int| 0 <= k < items.len() && items[k] == function;
                assert(init[k] == function);
                let j = choose|j: int|
                    0 <= j < init.len() && #[trigger] init[j] == function && slot_at(
                        located(slots, init, start),
                        function.id() as nat,
                    ) == Some(ElementItemId { id: (start + j) as u32 });
                assert(items[j] == function);
            } else if init.contains(function) {
                let k = choose|k: int| 0 <= k < init.len() && init[k] == function;
                assert(items[k] == function);
            }
            assert(items[n].id() != function.id());
        }
    }
}

/// The index of a function is one at which it stands in its table. A function without an index
/// stands in no segment.
pub proof fn lemma_functions_stand_at_their_indices(
    segments: Seq<SealedElementSegment<FunctionRef>>,
    function: FunctionRef,
)
    requires
        forall|s: int|
            0 <= s < segments.len() ==> element_start((#[trigger] segments[s]).kind)
                + segments[s].parts@.len() <= u32::MAX,
    ensures
        slot_at(locations(segments), function.id() as nat) matches Some(index) ==> exists|
            s: int,
            k: int,
        | #[trigger]
            stands_at(segments, function, s, k, index.id() as int),
        slot_at(locations(segments), function.id() as nat) is None ==> forall|
            s: int,
            k: int,
            index: int,
        | !#[trigger] stands_at(segments, function, s, k, index),
    decreases segments.len(),
{
    if segments.len() > 0 {
        let init = segments.drop_last();
        let last = segments.last();
        let n = segments.len() - 1;
        assert forall|s: int| 0 <= s < init.len() implies element_start(
            (#[trigger] init[s]).kind,
        ) + init[s].parts@.len() <= u32::MAX by {
            assert(init[s] == segments[s]);
        }
        lemma_functions_stand_at_their_indices(init, function);
        lemma_located(locations(init), last.parts@, element_start(last.kind), function);
        assert(element_start(segments[n].kind) + segments[n].parts@.len() <= u32::MAX);
        assert(locations(segments) == located(
            locations(init),
            last.parts@,
            element_start(last.kind),
        ));
        if last.parts@.contains(function) {
            let start = element_start(last.kind);
            let k = choose|k: int|
                0 <= k < last.parts@.len() && #[trigger] last.parts@[k] == function && slot_at(
                    locations(segments),
                    function.id() as nat,
                ) == Some(ElementItemId { id: (start + k) as u32 });
            let index = slot_at(locations(segments), function.id() as nat)->0;
            assert(index == ElementItemId { id: (start + k) as u32 });
            assert(index.id() == start + k);
            assert(segments[n].parts@[k] == function);
            assert(stands_at(segments, function, n, k, index.id() as int));
        } else {
            match slot_at(locations(init), function.id() as nat) {
                Some(index) => {
                    let (s, k) = choose|s: int, k: int| #[trigger]
                        stands_at(init, function, s, k, index.id() as int);
                    assert(stands_at(segments, function, s, k, index.id() as int));
                    assert(slot_at(locations(segments), function.id() as nat) == Some(index));
                },
                None => {
                    assert forall|s: int, k: int, index: int| !#[trigger]
                        stands_at(segments, function, s, k, index) by {
                        if stands_at(segments, function, s, k, index) {
                            if s == n {
                                assert(last.parts@[k] == function);
                            } else {
                                assert(stands_at(init, function, s, k, index));
                            }
                        }
                    }
                },
            }
        }
    }
}

impl ElementLayoutSealed<FunctionRef> {
    /// The index of every function in its table.
    pub fn items_locations(&self) -> (r: GappedMap<FunctionRef, ElementItemId>)
        requires
            forall|s: int|
                0 <= s < self.segments@.len() ==> element_start((#[trigger] self.segments@[s]).kind)
                    + self.segments@[s].parts@.len() <= u32::MAX,
            forall|s: int, k: int|
                #![trigger self.segments@[s].parts@[k]]
                0 <= s < self.segments@.len() && 0 <= k < self.segments@[s].parts@.len()
                    ==> self.segments@[s].parts@[k].id() + 1 < u32::MAX,
        ensures
            r.wf(),
            r@ == locations(self.segments@),
    {
        let mut result: GappedMap<FunctionRef, ElementItemId> = GappedMap::new();
        let ghost all = self.segments@;
        let mut s: usize = 0;
        assert(all.take(0) =~= Seq::<SealedElementSegment<FunctionRef>>::empty());
        while s < self.segments.len()
            invariant
                s <= all.len(),
                all == self.segments@,
                result.wf(),
                result@ == locations(all.take(s as int)),
                forall|s: int|
                    0 <= s < all.len() ==> element_start((#[trigger] all[s]).kind)
                        + all[s].parts@.len() <= u32::MAX,
                forall|s: int, k: int|
                    #![trigger all[s].parts@[k]]
                    0 <= s < all.len() && 0 <= k < all[s].parts@.len() ==> all[s].parts@[k].id() + 1
                        < u32::MAX,
            decreases all.len() - s,
        {
            let segment = &self.segments.as_slice()[s];
            let ghost before = result@;
            let start: u32 = match segment.kind.location() {
                Some(location) => location.offset(),
                None => 0,
            };
            let items = segment.parts.as_slice();
            let mut k: usize = 0;
            proof {
                assert(all[s as int] == *segment);
                assert(all.take(s + 1).drop_last() =~= all.take(s as int));
                assert(all.take(s + 1).last() == *segment);
                assert(items@.take(0) =~= Seq::<FunctionRef>::empty());
                assert(start == element_start(segment.kind));
            }
            while k < items.len()
                invariant
                    k <= items@.len(),
                    0 <= s < all.len(),
                    all[s as int].parts@ == items@,
                    start == element_start(all[s as int].kind),
                    start + items@.len() <= u32::MAX,
                    forall|s: int, k: int|
                        #![trigger all[s].parts@[k]]
                        0 <= s < all.len() && 0 <= k < all[s].parts@.len() ==> all[s].parts@[k].id()
                            + 1 < u32::MAX,
                    result.wf(),
                    result@ == located(before, items@.take(k as int), start as int),
                decreases items@.len() - k,
            {
                assert(items@.take(k + 1).drop_last() =~= items@.take(k as int));
                assert(all[s as int].parts@[k as int].id() + 1 < u32::MAX);
                let _ = result.insert(items[k], ElementItemId::from_u32(start + k as u32));
                k = k + 1;
            }
            assert(items@.take(k as int) =~= items@);
            s = s + 1;
        }
        assert(all.take(s as int) =~= all);
        result
    }
}

} // verus!
