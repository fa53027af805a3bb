use core::marker::PhantomData;
use vstd::prelude::*;

verus! {

/// The kinds of vehicle the lot takes.
#[derive(Clone, Copy, Debug, PartialEq, Eq, Structural)]
pub enum VehicleType {
    Car,
    Truck,
    Electric,
    Van,
    Motorbike,
}

/// The kinds of parking spot a floor offers.
#[derive(Clone, Copy, Debug, PartialEq, Eq, Structural)]
pub enum ParkingSpotType {
    Handicapped,
    Compact,
    Large,
    Motorbike,
    Electric,
}

/// One parking spot: it has a fixed number and type, and is either free
/// or holds a vehicle.
pub trait ParkingSpot<T>: Sized {
    /// The spot's number, as the contracts see it.
    spec fn spec_number(&self) -> u32;

    /// Whether the spot is free, as the contracts see it.
    spec fn spec_free(&self) -> bool;

    /// The spot's type, as the contracts see it.
    spec fn spec_type(&self) -> ParkingSpotType;

    fn is_free(&self) -> (r: bool)
        ensures
            r == self.spec_free(),
    ;

    fn assign_vehicle(&mut self, vehicle: T)
        ensures
            !final(self).spec_free(),
            final(self).spec_number() == old(self).spec_number(),
            final(self).spec_type() == old(self).spec_type(),
    ;

    fn remove_vehicle(&mut self)
        ensures
            final(self).spec_free(),
            final(self).spec_number() == old(self).spec_number(),
            final(self).spec_type() == old(self).spec_type(),
    ;

    fn get_type(&self) -> (t: ParkingSpotType)
        ensures
            t == self.spec_type(),
    ;

    fn get_number(&self) -> (num: u32)
        ensures
            num == self.spec_number(),
    ;

    /// A copy for display: same number, freedom and type, carrying no
    /// vehicle.
    fn snapshot(&self) -> (r: Self)
        ensures
            r.spec_number() == self.spec_number(),
            r.spec_free() == self.spec_free(),
            r.spec_type() == self.spec_type(),
    ;
}

/// A spot reserved for handicapped parking.
#[derive(Clone, Debug)]
pub struct HandicappedSpot<T> {
    number: u32,
    free: bool,
    vehicle: Option<T>,
}

impl<T> HandicappedSpot<T> {
    /// A fresh, free spot with the given number.
    pub fn new(number: u32) -> (s: Self)
        ensures
            s.spec_number() == number,
            s.spec_free(),
    {
        HandicappedSpot { number, free: true, vehicle: None }
    }
}

impl<T> ParkingSpot<T> for HandicappedSpot<T> {
    closed spec fn spec_number(&self) -> u32 {
        self.number
    }

    closed spec fn spec_free(&self) -> bool {
        self.free
    }

    closed spec fn spec_type(&self) -> ParkingSpotType {
        ParkingSpotType::Handicapped
    }

    fn is_free(&self) -> bool {
        self.free
    }

    fn assign_vehicle(&mut self, vehicle: T) {
        self.vehicle = Some(vehicle);
        self.free = false;
    }

    fn remove_vehicle(&mut self) {
        self.vehicle = None;
        self.free = true;
    }

    fn get_type(&self) -> ParkingSpotType {
        ParkingSpotType::Handicapped
    }

    fn get_number(&self) -> u32 {
        self.number
    }

    fn snapshot(&self) -> Self {
        Self { number: self.number, free: self.free, vehicle: None }
    }
}

/// A compact-car spot.
#[derive(Clone, Debug)]
pub struct CompactSpot<T> {
    number: u32,
    free: bool,
    vehicle: Option<T>,
}

impl<T> CompactSpot<T> {
    /// A fresh, free spot with the given number.
    pub fn new(number: u32) -> (s: Self)
        ensures
            s.spec_number() == number,
            s.spec_free(),
    {
        CompactSpot { number, free: true, vehicle: None }
    }
}

impl<T> ParkingSpot<T> for CompactSpot<T> {
    closed spec fn spec_number(&self) -> u32 {
        self.number
    }

    closed spec fn spec_free(&self) -> bool {
        self.free
    }

    closed spec fn spec_type(&self) -> ParkingSpotType {
        ParkingSpotType::Compact
    }

    fn is_free(&self) -> bool {
        self.free
    }

    fn assign_vehicle(&mut self, vehicle: T) {
        self.vehicle = Some(vehicle);
        self.free = false;
    }

    fn remove_vehicle(&mut self) {
        self.vehicle = None;
        self.free = true;
    }

    fn get_type(&self) -> ParkingSpotType {
        ParkingSpotType::Compact
    }

    fn get_number(&self) -> u32 {
        self.number
    }

    fn snapshot(&self) -> Self {
        Self { number: self.number, free: self.free, vehicle: None }
    }
}

/// A spot for full-size vehicles.
#[derive(Clone, Debug)]
pub struct LargeSpot<T> {
    number: u32,
    free: bool,
    vehicle: Option<T>,
}

impl<T> LargeSpot<T> {
    /// A fresh, free spot with the given number.
    pub fn new(number: u32) -> (s: Self)
        ensures
            s.spec_number() == number,
            s.spec_free(),
    {
        LargeSpot { number, free: true, vehicle: None }
    }
}

impl<T> ParkingSpot<T> for LargeSpot<T> {
    closed spec fn spec_number(&self) -> u32 {
        self.number
    }

    closed spec fn spec_free(&self) -> bool {
        self.free
    }

    closed spec fn spec_type(&self) -> ParkingSpotType {
        ParkingSpotType::Large
    }

    fn is_free(&self) -> bool {
        self.free
    }

    fn assign_vehicle(&mut self, vehicle: T) {
        self.vehicle = Some(vehicle);
        self.free = false;
    }

    fn remove_vehicle(&mut self) {
        self.vehicle = None;
        self.free = true;
    }

    fn get_type(&self) -> ParkingSpotType {
        ParkingSpotType::Large
    }

    fn get_number(&self) -> u32 {
        self.number
    }

    fn snapshot(&self) -> Self {
        Self { number: self.number, free: self.free, vehicle: None }
    }
}

/// A motorbike spot.
#[derive(Clone, Debug)]
pub struct MotorbikeSpot<T> {
    number: u32,
    free: bool,
    vehicle: Option<T>,
}

impl<T> MotorbikeSpot<T> {
    /// A fresh, free spot with the given number.
    pub fn new(number: u32) -> (s: Self)
        ensures
            s.spec_number() == number,
            s.spec_free(),
    {
        MotorbikeSpot { number, free: true, vehicle: None }
    }
}

impl<T> ParkingSpot<T> for MotorbikeSpot<T> {
    closed spec fn spec_number(&self) -> u32 {
        self.number
    }

    closed spec fn spec_free(&self) -> bool {
        self.free
    }

    closed spec fn spec_type(&self) -> ParkingSpotType {
        ParkingSpotType::Motorbike
    }

    fn is_free(&self) -> bool {
        self.free
    }

    fn assign_vehicle(&mut self, vehicle: T) {
        self.vehicle = Some(vehicle);
        self.free = false;
    }

    fn remove_vehicle(&mut self) {
        self.vehicle = None;
        self.free = true;
    }

    fn get_type(&self) -> ParkingSpotType {
        ParkingSpotType::Motorbike
    }

    fn get_number(&self) -> u32 {
        self.number
    }

    fn snapshot(&self) -> Self {
        Self { number: self.number, free: self.free, vehicle: None }
    }
}

/// A spot with a charging point.
#[derive(Clone, Debug)]
pub struct ElectricSpot<T> {
    number: u32,
    free: bool,
    vehicle: Option<T>,
}

impl<T> ElectricSpot<T> {
    /// A fresh, free spot with the given number.
    pub fn new(number: u32) -> (s: Self)
        ensures
            s.spec_number() == number,
            s.spec_free(),
    {
        ElectricSpot { number, free: true, vehicle: None }
    }
}

impl<T> ParkingSpot<T> for ElectricSpot<T> {
    closed spec fn spec_number(&self) -> u32 {
        self.number
    }

    closed spec fn spec_free(&self) -> bool {
        self.free
    }

    closed spec fn spec_type(&self) -> ParkingSpotType {
        ParkingSpotType::Electric
    }

    fn is_free(&self) -> bool {
        self.free
    }

    fn assign_vehicle(&mut self, vehicle: T) {
        self.vehicle = Some(vehicle);
        self.free = false;
    }

    fn remove_vehicle(&mut self) {
        self.vehicle = None;
        self.free = true;
    }

    fn get_type(&self) -> ParkingSpotType {
        ParkingSpotType::Electric
    }

    fn get_number(&self) -> u32 {
        self.number
    }

    fn snapshot(&self) -> Self {
        Self { number: self.number, free: self.free, vehicle: None }
    }
}


/// The display-worthy facts of one spot: its number, whether it is
/// free, and its type.
#[derive(Clone, Copy, Debug, PartialEq, Eq, Structural)]
pub struct SpotInfo {
    pub number: u32,
    pub free: bool,
    pub kind: ParkingSpotType,
}

/// No two spots share a number.
pub open spec fn unique_numbers<S: ParkingSpot<T>, T>(v: Seq<S>) -> bool {
    forall|i: int, j: int|
        0 <= i < j < v.len() ==> (#[trigger] v[i]).spec_number() != (
        #[trigger] v[j]).spec_number()
}

/// Every spot in the sequence has the given type.
pub open spec fn all_of_type<S: ParkingSpot<T>, T>(v: Seq<S>, t: ParkingSpotType) -> bool {
    forall|i: int| 0 <= i < v.len() ==> (#[trigger] v[i]).spec_type() == t
}

/// A spot inventory after taking in one more spot: a spot with the same
/// number is replaced, any other spot is appended.
pub open spec fn spot_upserted<S: ParkingSpot<T>, T>(v: Seq<S>, spot: S) -> Seq<S> {
    if exists|i: int| 0 <= i < v.len() && (#[trigger] v[i]).spec_number() == spot.spec_number() {
        let i = choose|i: int|
            0 <= i < v.len() && (#[trigger] v[i]).spec_number() == spot.spec_number();
        v.update(i, spot)
    } else {
        v.push(spot)
    }
}

/// The first free spot of an inventory, in insertion order.
pub open spec fn first_free_spot<S: ParkingSpot<T>, T>(v: Seq<S>) -> Option<S>
    decreases v.len(),
{
    if v.len() == 0 {
        None
    } else if v[0].spec_free() {
        Some(v[0])
    } else {
        first_free_spot::<S, T>(v.skip(1))
    }
}

/// Replaces a spot into an inventory with unique numbers, keeping the
/// numbers unique, or appends it when its number is new.
#[verifier::loop_isolation(false)]
fn upsert_spot<S: ParkingSpot<T>, T>(v: &mut Vec<S>, spot: S)
    requires
        unique_numbers(old(v)@),
    ensures
        final(v)@ == spot_upserted::<S, T>(old(v)@, spot),
        unique_numbers(final(v)@),
        forall|t: ParkingSpotType|
            all_of_type(old(v)@, t) && spot.spec_type() == t ==> all_of_type(final(v)@, t),
{
    let num = spot.get_number();
    let mut i: usize = 0;
    while i < v.len()
        invariant
            i <= v@.len(),
            v@ == old(v)@,
            num == spot.spec_number(),
            forall|k: int| 0 <= k < i ==> (#[trigger] v@[k]).spec_number() != spot.spec_number(),
        decreases v@.len() - i,
    {
        if v[i].get_number() == num {
            proof {
                let idx = choose|idx: int|
                    0 <= idx < v@.len() && (#[trigger] v@[idx]).spec_number()
                        == spot.spec_number();
                if idx != i as int {
                    assert(v@[idx].spec_number() == v@[i as int].spec_number());
                    assert(false);
                }
            }
            v[i] = spot;
            proof {
                assert(v@ == spot_upserted::<S, T>(old(v)@, spot));
                assert forall|a: int, b: int| 0 <= a < b < v@.len() implies (
                #[trigger] v@[a]).spec_number() != (#[trigger] v@[b]).spec_number() by {
                    assert(old(v)@[a].spec_number() != old(v)@[b].spec_number());
                }
            }
            return ;
        }
        i = i + 1;
    }
    proof {
        if exists|idx: int|
            0 <= idx < v@.len() && (#[trigger] v@[idx]).spec_number() == spot.spec_number() {
            let idx = choose|idx: int|
                0 <= idx < v@.len() && (#[trigger] v@[idx]).spec_number() == spot.spec_number();
            assert(false);
        }
    }
    v.push(spot);
    proof {
        assert(v@ == spot_upserted::<S, T>(old(v)@, spot));
        assert forall|a: int, b: int| 0 <= a < b < v@.len() implies (
        #[trigger] v@[a]).spec_number() != (#[trigger] v@[b]).spec_number() by {
            if b < v@.len() - 1 {
                assert(old(v)@[a].spec_number() != old(v)@[b].spec_number());
            }
        }
    }
}

/// How a display slot may change when the spot with the given number
/// is taken: if the slot showed that spot, the inventory's first free
/// spot takes its place (or, with none free, the slot stays); a slot
/// showing anything else, or nothing, stays as it was.
pub open spec fn slot_refreshed<S: ParkingSpot<T>, T>(
    before: Option<S>,
    after: Option<S>,
    spots: Seq<S>,
    number: u32,
) -> bool {
    match before {
        None => after == before,
        Some(shown) => if shown.spec_number() != number {
            after == before
        } else {
            match first_free_spot::<S, T>(spots) {
                None => after == before,
                Some(f) => match after {
                    Some(g) => g.spec_number() == f.spec_number() && g.spec_free()
                        == f.spec_free() && g.spec_type() == f.spec_type(),
                    None => false,
                },
            }
        },
    }
}

/// Refreshes one display slot: when it shows the spot with the given
/// number, the first free spot of the inventory takes its place; with
/// none free, or when it shows another spot or nothing, it stays.
#[verifier::loop_isolation(false)]
fn refresh_shown_spot<S: ParkingSpot<T>, T>(slot: &mut Option<S>, spots: &Vec<S>, number: u32)
    ensures
        slot_refreshed(*old(slot), *final(slot), spots@, number),
{
    let shows_it = match &*slot {
        Some(shown) => shown.get_number() == number,
        None => false,
    };
    if !shows_it {
        return ;
    }
    proof {
        assert(spots@.skip(0) =~= spots@);
    }
    let mut i: usize = 0;
    while i < spots.len()
        invariant
            i <= spots@.len(),
            *slot == *old(slot),
            first_free_spot::<S, T>(spots@) == first_free_spot::<S, T>(spots@.skip(i as int)),
        decreases spots@.len() - i,
    {
        if spots[i].is_free() {
            proof {
                assert(spots@.skip(i as int)[0] == spots@[i as int]);
                assert(first_free_spot::<S, T>(spots@) == Some(spots@[i as int]));
            }
            let fresh = spots[i].snapshot();
            *slot = Some(fresh);
            return ;
        }
        proof {
            assert(spots@.skip(i as int)[0] == spots@[i as int]);
            assert(spots@.skip(i as int).skip(1) =~= spots@.skip(i + 1));
        }
        i = i + 1;
    }
    proof {
        assert(spots@.skip(spots@.len() as int).len() == 0);
    }
}

/// The board a floor shows: at most one spot of each type offered as
/// free, for customers to head to.
#[derive(Debug)]
pub struct ParkingDisplayBoard<S, T> {
    pub id: u32,
    pub handicapped_free_spot: Option<S>,
    pub compact_free_spot: Option<S>,
    pub large_free_spot: Option<S>,
    pub motorbike_free_spot: Option<S>,
    pub electric_free_spot: Option<S>,
    pub marker: PhantomData<T>,
}

impl<S: ParkingSpot<T>, T> ParkingDisplayBoard<S, T> {
    /// A board with the given id that shows nothing yet.
    pub fn new(id: u32) -> (board: Self)
        ensures
            board.id == id,
            board.handicapped_free_spot is None,
            board.compact_free_spot is None,
            board.large_free_spot is None,
            board.motorbike_free_spot is None,
            board.electric_free_spot is None,
    {
        ParkingDisplayBoard {
            id,
            handicapped_free_spot: None,
            compact_free_spot: None,
            large_free_spot: None,
            motorbike_free_spot: None,
            electric_free_spot: None,
            marker: PhantomData,
        }
    }

    /// The compact spot the board shows.
    pub fn get_compact_free_spot(&self) -> (r: &S)
        requires
            self.compact_free_spot is Some,
        ensures
            *r == self.compact_free_spot->0,
    {
        self.compact_free_spot.as_ref().unwrap()
    }

    /// Shows a copy of this spot in the compact slot.
    pub fn set_compact_free_spot(&mut self, spot: &S)
        ensures
            *final(self) == (ParkingDisplayBoard {
                compact_free_spot: final(self).compact_free_spot,
                ..*old(self)
            }),
            final(self).compact_free_spot matches Some(g) && g.spec_number() == spot.spec_number()
                && g.spec_free() == spot.spec_free() && g.spec_type() == spot.spec_type(),
    {
        self.compact_free_spot = Some(spot.snapshot());
    }

    /// The handicapped spot the board shows.
    pub fn get_handicapped_free_spot(&self) -> (r: &S)
        requires
            self.handicapped_free_spot is Some,
        ensures
            *r == self.handicapped_free_spot->0,
    {
        self.handicapped_free_spot.as_ref().unwrap()
    }

    /// Shows a copy of this spot in the handicapped slot.
    pub fn set_handicapped_free_spot(&mut self, spot: &S)
        ensures
            *final(self) == (ParkingDisplayBoard {
                handicapped_free_spot: final(self).handicapped_free_spot,
                ..*old(self)
            }),
            final(self).handicapped_free_spot matches Some(g) && g.spec_number()
                == spot.spec_number() && g.spec_free() == spot.spec_free() && g.spec_type()
                == spot.spec_type(),
    {
        self.handicapped_free_spot = Some(spot.snapshot());
    }

    /// The facts a customer reads off the board, slot by slot in a
    /// fixed order, skipping empty slots.
    pub fn empty_spot_report(&self) -> (r: Vec<SpotInfo>)
        ensures
            r@ == self.spec_report(),
    {
        let mut r: Vec<SpotInfo> = Vec::new();
        if let Some(s) = &self.handicapped_free_spot {
            r.push(SpotInfo { number: s.get_number(), free: s.is_free(), kind: s.get_type() });
        }
        if let Some(s) = &self.compact_free_spot {
            r.push(SpotInfo { number: s.get_number(), free: s.is_free(), kind: s.get_type() });
        }
        if let Some(s) = &self.large_free_spot {
            r.push(SpotInfo { number: s.get_number(), free: s.is_free(), kind: s.get_type() });
        }
        if let Some(s) = &self.motorbike_free_spot {
            r.push(SpotInfo { number: s.get_number(), free: s.is_free(), kind: s.get_type() });
        }
        if let Some(s) = &self.electric_free_spot {
            r.push(SpotInfo { number: s.get_number(), free: s.is_free(), kind: s.get_type() });
        }
        proof {
            assert(r@ =~= self.spec_report());
        }
        r
    }

    /// One slot's contribution to the report.
    pub open spec fn spec_slot_report(slot: Option<S>) -> Seq<SpotInfo> {
        match slot {
            Some(s) => seq![
                SpotInfo { number: s.spec_number(), free: s.spec_free(), kind: s.spec_type() },
            ],
            None => Seq::empty(),
        }
    }

    /// What the whole board reports.
    pub open spec fn spec_report(self) -> Seq<SpotInfo> {
        Self::spec_slot_report(self.handicapped_free_spot) + Self::spec_slot_report(
            self.compact_free_spot,
        ) + Self::spec_slot_report(self.large_free_spot) + Self::spec_slot_report(
            self.motorbike_free_spot,
        ) + Self::spec_slot_report(self.electric_free_spot)
    }
}


impl<S: ParkingSpot<T>, T> ParkingDisplayBoard<S, T> {
    /// The slot that shows spots of the given type.
    pub open spec fn slot_of(self, t: ParkingSpotType) -> Option<S> {
        match t {
            ParkingSpotType::Handicapped => self.handicapped_free_spot,
            ParkingSpotType::Compact => self.compact_free_spot,
            ParkingSpotType::Large => self.large_free_spot,
            ParkingSpotType::Motorbike => self.motorbike_free_spot,
            ParkingSpotType::Electric => self.electric_free_spot,
        }
    }
}

/// One floor of the lot: the spot inventories by type, tallies of
/// freed spots, and the display board shown on the floor.
#[derive(Debug)]
pub struct ParkingFloor<S, T> {
    pub name: String,
    pub handicapped_spots: Vec<S>,
    pub compact_spots: Vec<S>,
    pub large_spots: Vec<S>,
    pub motorbike_spots: Vec<S>,
    pub electric_spots: Vec<S>,
    pub free_handicapped_spot_count: u32,
    pub free_compact_spot_count: u32,
    pub free_large_spot_count: u32,
    pub free_motorbike_spot_count: u32,
    pub free_electric_spot_count: u32,
    pub display_board: ParkingDisplayBoard<S, T>,
}

impl<S: ParkingSpot<T>, T> ParkingFloor<S, T> {
    /// The inventory of the given spot type.
    pub open spec fn spots_of(self, t: ParkingSpotType) -> Seq<S> {
        match t {
            ParkingSpotType::Handicapped => self.handicapped_spots@,
            ParkingSpotType::Compact => self.compact_spots@,
            ParkingSpotType::Large => self.large_spots@,
            ParkingSpotType::Motorbike => self.motorbike_spots@,
            ParkingSpotType::Electric => self.electric_spots@,
        }
    }

    /// How many spots of the given type have been freed.
    pub open spec fn free_count_of(self, t: ParkingSpotType) -> u32 {
        match t {
            ParkingSpotType::Handicapped => self.free_handicapped_spot_count,
            ParkingSpotType::Compact => self.free_compact_spot_count,
            ParkingSpotType::Large => self.free_large_spot_count,
            ParkingSpotType::Motorbike => self.free_motorbike_spot_count,
            ParkingSpotType::Electric => self.free_electric_spot_count,
        }
    }

    /// Each inventory holds spots of its own type, with unique numbers.
    pub open spec fn wf(self) -> bool {
        forall|t: ParkingSpotType|
            unique_numbers(#[trigger] self.spots_of(t)) && all_of_type(self.spots_of(t), t)
    }

    /// An empty floor with the given name and a blank board.
    pub fn new(name: String) -> (floor: Self)
        ensures
            floor.name == name,
            forall|t: ParkingSpotType| (#[trigger] floor.spots_of(t)).len() == 0,
            forall|t: ParkingSpotType| #[trigger] floor.free_count_of(t) == 0,
            floor.display_board.id == 0,
            forall|t: ParkingSpotType| (#[trigger] floor.display_board.slot_of(t)) is None,
            floor.wf(),
    {
        ParkingFloor {
            name,
            handicapped_spots: Vec::new(),
            compact_spots: Vec::new(),
            large_spots: Vec::new(),
            motorbike_spots: Vec::new(),
            electric_spots: Vec::new(),
            free_handicapped_spot_count: 0,
            free_compact_spot_count: 0,
            free_large_spot_count: 0,
            free_motorbike_spot_count: 0,
            free_electric_spot_count: 0,
            display_board: ParkingDisplayBoard::new(0),
        }
    }

    /// Takes one spot into the inventory of its own type: a spot with
    /// the same number is replaced, a new number is appended.
    pub fn add_parking_spot(&mut self, spot: S)
        requires
            old(self).wf(),
        ensures
            final(self).wf(),
            final(self).spots_of(spot.spec_type()) == spot_upserted::<S, T>(
                old(self).spots_of(spot.spec_type()),
                spot,
            ),
            forall|t: ParkingSpotType|
                t != spot.spec_type() ==> #[trigger] final(self).spots_of(t) == old(self).spots_of(
                    t,
                ),
            final(self).name == old(self).name,
            final(self).display_board == old(self).display_board,
            forall|t: ParkingSpotType|
                #[trigger] final(self).free_count_of(t) == old(self).free_count_of(t),
    {
        proof {
            assert(unique_numbers(old(self).spots_of(spot.spec_type())));
            assert(all_of_type(old(self).spots_of(spot.spec_type()), spot.spec_type()));
        }
        match spot.get_type() {
            ParkingSpotType::Handicapped => upsert_spot(&mut self.handicapped_spots, spot),
            ParkingSpotType::Compact => upsert_spot(&mut self.compact_spots, spot),
            ParkingSpotType::Large => upsert_spot(&mut self.large_spots, spot),
            ParkingSpotType::Motorbike => upsert_spot(&mut self.motorbike_spots, spot),
            ParkingSpotType::Electric => upsert_spot(&mut self.electric_spots, spot),
        }
        proof {
            assert forall|t: ParkingSpotType|
                unique_numbers(#[trigger] self.spots_of(t)) && all_of_type(
                    self.spots_of(t),
                    t,
                ) by {
                assert(unique_numbers(old(self).spots_of(t)));
                assert(all_of_type(old(self).spots_of(t), t));
            }
        }
    }

    /// Parks a vehicle on the spot and refreshes the display slot of
    /// the spot's type, so the board does not go on showing it as free.
    pub fn assign_vehicle_to_spot(&mut self, vehicle: T, spot: &mut S)
        ensures
            !final(spot).spec_free(),
            final(spot).spec_number() == old(spot).spec_number(),
            final(spot).spec_type() == old(spot).spec_type(),
            final(self).name == old(self).name,
            forall|t: ParkingSpotType|
                #[trigger] final(self).spots_of(t) == old(self).spots_of(t),
            forall|t: ParkingSpotType|
                #[trigger] final(self).free_count_of(t) == old(self).free_count_of(t),
            final(self).display_board.id == old(self).display_board.id,
            slot_refreshed::<S, T>(
                old(self).display_board.slot_of(old(spot).spec_type()),
                final(self).display_board.slot_of(old(spot).spec_type()),
                old(self).spots_of(old(spot).spec_type()),
                old(spot).spec_number(),
            ),
            forall|t: ParkingSpotType|
                t != old(spot).spec_type() ==> #[trigger] final(self).display_board.slot_of(t)
                    == old(self).display_board.slot_of(t),
    {
        spot.assign_vehicle(vehicle);
        match spot.get_type() {
            ParkingSpotType::Handicapped => self.update_display_board_for_handicapped(spot),
            ParkingSpotType::Compact => self.update_display_board_for_compact(spot),
            ParkingSpotType::Large => self.update_display_board_for_large(spot),
            ParkingSpotType::Motorbike => self.update_display_board_for_motorbike(spot),
            ParkingSpotType::Electric => self.update_display_board_for_electric(spot),
        }
    }

    /// Refreshes the handicapped display slot after this spot was
    /// taken.
    pub fn update_display_board_for_handicapped(&mut self, spot: &S)
        ensures
            slot_refreshed::<S, T>(
                old(self).display_board.handicapped_free_spot,
                final(self).display_board.handicapped_free_spot,
                old(self).handicapped_spots@,
                spot.spec_number(),
            ),
            *final(self) == (ParkingFloor { display_board: final(self).display_board, ..*old(self) }),
            final(self).display_board == (ParkingDisplayBoard {
                handicapped_free_spot: final(self).display_board.handicapped_free_spot,
                ..old(self).display_board
            }),
    {
        let number = spot.get_number();
        refresh_shown_spot(&mut self.display_board.handicapped_free_spot, &self.handicapped_spots, number);
    }

    /// Refreshes the compact display slot after this spot was taken.
    pub fn update_display_board_for_compact(&mut self, spot: &S)
        ensures
            slot_refreshed::<S, T>(
                old(self).display_board.compact_free_spot,
                final(self).display_board.compact_free_spot,
                old(self).compact_spots@,
                spot.spec_number(),
            ),
            *final(self) == (ParkingFloor { display_board: final(self).display_board, ..*old(self) }),
            final(self).display_board == (ParkingDisplayBoard {
                compact_free_spot: final(self).display_board.compact_free_spot,
                ..old(self).display_board
            }),
    {
        let number = spot.get_number();
        refresh_shown_spot(&mut self.display_board.compact_free_spot, &self.compact_spots, number);
    }

    /// Refreshes the large display slot after this spot was taken.
    pub fn update_display_board_for_large(&mut self, spot: &S)
        ensures
            slot_refreshed::<S, T>(
                old(self).display_board.large_free_spot,
                final(self).display_board.large_free_spot,
                old(self).large_spots@,
                spot.spec_number(),
            ),
            *final(self) == (ParkingFloor { display_board: final(self).display_board, ..*old(self) }),
            final(self).display_board == (ParkingDisplayBoard {
                large_free_spot: final(self).display_board.large_free_spot,
                ..old(self).display_board
            }),
    {
        let number = spot.get_number();
        refresh_shown_spot(&mut self.display_board.large_free_spot, &self.large_spots, number);
    }

    /// Refreshes the motorbike display slot after this spot was taken.
    pub fn update_display_board_for_motorbike(&mut self, spot: &S)
        ensures
            slot_refreshed::<S, T>(
                old(self).display_board.motorbike_free_spot,
                final(self).display_board.motorbike_free_spot,
                old(self).motorbike_spots@,
                spot.spec_number(),
            ),
            *final(self) == (ParkingFloor { display_board: final(self).display_board, ..*old(self) }),
            final(self).display_board == (ParkingDisplayBoard {
                motorbike_free_spot: final(self).display_board.motorbike_free_spot,
                ..old(self).display_board
            }),
    {
        let number = spot.get_number();
        refresh_shown_spot(&mut self.display_board.motorbike_free_spot, &self.motorbike_spots, number);
    }

    /// Refreshes the electric display slot after this spot was taken.
    pub fn update_display_board_for_electric(&mut self, spot: &S)
        ensures
            slot_refreshed::<S, T>(
                old(self).display_board.electric_free_spot,
                final(self).display_board.electric_free_spot,
                old(self).electric_spots@,
                spot.spec_number(),
            ),
            *final(self) == (ParkingFloor { display_board: final(self).display_board, ..*old(self) }),
            final(self).display_board == (ParkingDisplayBoard {
                electric_free_spot: final(self).display_board.electric_free_spot,
                ..old(self).display_board
            }),
    {
        let number = spot.get_number();
        refresh_shown_spot(&mut self.display_board.electric_free_spot, &self.electric_spots, number);
    }

    /// Takes the vehicle off the spot and tallies one more freed spot
    /// of its type.
    pub fn free_spot(&mut self, spot: &mut S)
        requires
            old(self).free_count_of(old(spot).spec_type()) < u32::MAX,
        ensures
            final(spot).spec_free(),
            final(spot).spec_number() == old(spot).spec_number(),
            final(spot).spec_type() == old(spot).spec_type(),
            *final(self) == (ParkingFloor {
                free_handicapped_spot_count: final(self).free_handicapped_spot_count,
                free_compact_spot_count: final(self).free_compact_spot_count,
                free_large_spot_count: final(self).free_large_spot_count,
                free_motorbike_spot_count: final(self).free_motorbike_spot_count,
                free_electric_spot_count: final(self).free_electric_spot_count,
                ..*old(self)
            }),
            final(self).free_count_of(old(spot).spec_type()) == old(self).free_count_of(
                old(spot).spec_type(),
            ) + 1,
            forall|t: ParkingSpotType|
                t != old(spot).spec_type() ==> #[trigger] final(self).free_count_of(t) == old(
                    self,
                ).free_count_of(t),
    {
        spot.remove_vehicle();
        match spot.get_type() {
            ParkingSpotType::Handicapped => {
                self.free_handicapped_spot_count = self.free_handicapped_spot_count + 1;
            },
            ParkingSpotType::Compact => {
                self.free_compact_spot_count = self.free_compact_spot_count + 1;
            },
            ParkingSpotType::Large => {
                self.free_large_spot_count = self.free_large_spot_count + 1;
            },
            ParkingSpotType::Motorbike => {
                self.free_motorbike_spot_count = self.free_motorbike_spot_count + 1;
            },
            ParkingSpotType::Electric => {
                self.free_electric_spot_count = self.free_electric_spot_count + 1;
            },
        }
    }
}

} // verus!
