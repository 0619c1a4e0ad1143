//! The store: a durable counter of identifiers and a durable map from
//! identifier to observation, with the operations on single observations.

use crate::codec::{
    decode, decode_encode, decode_record, encode, encode_record_len, fits, payload_fits,
};
use crate::durable::{
    cell_get, cell_set, cell_value, default_memory, lists_entries, map_entries, map_get,
    map_insert, map_list, map_remove, memory_pages, memory_size, open_containers, opens,
    release_containers, IdCell, RecordMap, Regions, StoreMemory, COUNTER_REGION, RECORDS_REGION,
};
use crate::listing::{listing_is_ordered, ordered, views};
use crate::record::{
    assemble, AirQualityData, AirQualityUpdatePayload, Error, PayloadView, RecordView,
};
use crate::text::{decimal, join3, render_decimal};
use vstd::prelude::*;

verus! {

/// A store as a mathematical value: the identifier that the next new
/// observation gets, and the observations by identifier.
pub struct StoreState {
    pub next_id: u64,
    pub records: Map<u64, RecordView>,
}

impl StoreState {
    /// Every observation is kept under its own identifier, which has been
    /// issued.
    pub open spec fn wf(self) -> bool {
        forall|id: u64| #[trigger]
            self.records.contains_key(id) ==> id < self.next_id && self.records[id].id == id
    }

    /// The observation kept under `id`, if there is one.
    pub open spec fn lookup(self, id: u64) -> Option<RecordView> {
        if self.records.contains_key(id) {
            Some(self.records[id])
        } else {
            None
        }
    }

    /// The store that holds nothing and has issued no identifier.
    pub open spec fn blank() -> StoreState {
        StoreState { next_id: 0, records: Map::empty() }
    }

    /// The store after an identifier has been issued.
    pub open spec fn with_issued(self) -> StoreState {
        StoreState { next_id: (self.next_id + 1) as u64, ..self }
    }

    /// The store after `r` has been stored under its identifier.
    pub open spec fn with_record(self, r: RecordView) -> StoreState {
        StoreState { records: self.records.insert(r.id, r), ..self }
    }

    /// The store after a new observation has been stored: the next
    /// identifier is issued, and what `payload` describes as of `now` is
    /// stored under it.
    pub open spec fn with_new(self, payload: PayloadView, now: u64) -> StoreState {
        self.with_issued().with_record(assemble(self.next_id, payload, now))
    }

    /// The store after what is under `id` has been replaced by what
    /// `payload` describes as of `now`.
    pub open spec fn with_update(self, id: u64, payload: PayloadView, now: u64) -> StoreState {
        self.with_record(assemble(id, payload, now))
    }

    /// The store after what is under `id` has been taken out.
    pub open spec fn without(self, id: u64) -> StoreState {
        StoreState { records: self.records.remove(id), ..self }
    }
}

/// Why a store could not be opened on a memory.
#[derive(Debug, PartialEq, Eq)]
pub enum OpenError {
    /// The memory is not one of no pages, on which alone a new store is laid
    /// out.
    NotBlank,
    /// The counter of identifiers could not be loaded or written.
    Counter,
    /// What is stored under `id` is not an observation with that identifier,
    /// or the identifier has not been issued.
    Corrupt { id: u64 },
}

/// The observations that stored bytes stand for.
pub open spec fn decoded(entries: Map<u64, Seq<u8>>) -> Map<u64, RecordView> {
    Map::new(|id: u64| entries.contains_key(id), |id: u64| decode_record(entries[id]).unwrap())
}

/// Whether `bytes` may stand under `id` in a store whose next identifier is
/// `next_id`: the identifier has been issued, and the bytes are the byte form
/// of an observation with that identifier.
pub open spec fn sound_entry(id: u64, bytes: Seq<u8>, next_id: u64) -> bool {
    id < next_id && decode_record(bytes) is Some && decode_record(bytes).unwrap().id == id
}

/// Whether every entry may stand where it stands.
pub open spec fn sound(entries: Map<u64, Seq<u8>>, next_id: u64) -> bool {
    forall|id: u64| #[trigger] entries.contains_key(id) ==> sound_entry(id, entries[id], next_id)
}

/// The text that reports that nothing is stored under `id`.
pub open spec fn missing_text(id: u64) -> Seq<char> {
    "air quality data with id="@ + decimal(id as nat) + " not found"@
}

/// The text that reports that there was nothing under `id` to update.
pub open spec fn update_missing_text(id: u64) -> Seq<char> {
    "couldn't update air quality data with id="@ + decimal(id as nat) + ". data not found"@
}

/// The text that reports that there was nothing under `id` to delete.
pub open spec fn delete_missing_text(id: u64) -> Seq<char> {
    "couldn't delete air quality data with id="@ + decimal(id as nat) + ". data not found."@
}

/// The store of observations.
pub struct AirQualityStore {
    regions: Regions,
    ids: IdCell,
    records: RecordMap,
}

impl StoreMemory {
    /// The memory that the platform gives: off a canister a new memory, on a
    /// canister the canister's stable memory, which is to be taken once.
    pub fn new() -> (memory: StoreMemory) {
        default_memory()
    }

    /// The number of pages that the memory has. A store can be opened on a
    /// memory of no pages.
    pub fn pages(&self) -> (pages: u64)
        ensures
            pages == memory_pages(self),
            pages == 0 ==> opens(self),
    {
        memory_size(self)
    }
}

impl View for AirQualityStore {
    type V = StoreState;

    closed spec fn view(&self) -> StoreState {
        StoreState {
            next_id: cell_value(&self.ids),
            records: decoded(map_entries(&self.records)),
        }
    }
}

impl AirQualityStore {
    /// Whether the store is well-formed: every entry of the durable map is the
    /// byte form of an observation, stored under that observation's
    /// identifier, which the counter has passed.
    pub closed spec fn wf(&self) -> bool {
        sound(map_entries(&self.records), cell_value(&self.ids))
    }

    /// A well-formed store stands for a well-formed value.
    pub proof fn wf_view(&self)
        requires
            self.wf(),
        ensures
            self@.wf(),
    {
    }

    /// A store over a counter and a map in the regions of a memory, if every
    /// entry of the map may stand where it stands; else the least identifier
    /// whose entry may not.
    pub fn from_parts(regions: Regions, ids: IdCell, records: RecordMap) -> (opened: Result<
        AirQualityStore,
        OpenError,
    >)
        ensures
            opened is Ok <==> sound(map_entries(&records), cell_value(&ids)),
            opened is Ok ==> opened->Ok_0.wf() && opened->Ok_0@ == (StoreState {
                next_id: cell_value(&ids),
                records: decoded(map_entries(&records)),
            }),
            opened is Err ==> opened->Err_0 is Corrupt && map_entries(&records).contains_key(
                opened->Err_0->id,
            ) && !sound_entry(
                opened->Err_0->id,
                map_entries(&records)[opened->Err_0->id],
                cell_value(&ids),
            ),
            opened is Err ==> forall|id: u64|
                id < opened->Err_0->id && #[trigger] map_entries(&records).contains_key(id)
                    ==> sound_entry(id, map_entries(&records)[id], cell_value(&ids)),
    {
        let next_id = cell_get(&ids);
        let list = map_list(&records);
        let ghost entries = map_entries(&records);
        let mut i: usize = 0;
        while i < list.len()
            invariant
                i <= list.len(),
                entries == map_entries(&records),
                next_id == cell_value(&ids),
                lists_entries(list@, entries),
                forall|k: int|
                    0 <= k < i ==> sound_entry((#[trigger] list@[k]).0, list@[k].1@, next_id),
            decreases list.len() - i,
        {
            let id = list[i].0;
            let ok = match decode(&list[i].1) {
                Some(record) => record.id == id && id < next_id,
                None => false,
            };
            if !ok {
                proof {
                    assert forall|earlier: u64|
                        earlier < id && #[trigger] entries.contains_key(
                            earlier,
                        ) implies sound_entry(earlier, entries[earlier], next_id) by {
                        let k = choose|k: int|
                            0 <= k < list@.len() && (#[trigger] list@[k]).0 == earlier;
                        if k > i {
                            assert(list@[i as int].0 < list@[k].0);
                        }
                        assert(sound_entry(list@[k].0, list@[k].1@, next_id));
                    }
                }
                return Err(OpenError::Corrupt { id });
            }
            i += 1;
        }
        proof {
            assert forall|id: u64| #[trigger] entries.contains_key(id) implies sound_entry(
                id,
                entries[id],
                next_id,
            ) by {
                let k = choose|k: int| 0 <= k < list@.len() && (#[trigger] list@[k]).0 == id;
                assert(sound_entry(list@[k].0, list@[k].1@, next_id));
            }
        }
        Ok(AirQualityStore { regions, ids, records })
    }

    /// Opens the store on `memory`: loads the counter and the observations
    /// that the memory holds and checks every stored entry, or, on a memory
    /// of no pages, lays out a store that holds nothing with the counter at
    /// zero.
    pub fn init(memory: StoreMemory) -> (opened: Result<AirQualityStore, OpenError>)
        requires
            opens(&memory),
        ensures
            opened is Ok ==> opened->Ok_0.wf(),
            opened is Err ==> !(opened->Err_0 is NotBlank),
            memory_pages(&memory) == 0 ==> opened is Ok,
            memory_pages(&memory) == 0 ==> opened->Ok_0@ == StoreState::blank(),
    {
        let parts = open_containers(memory, COUNTER_REGION, RECORDS_REGION, 0);
        match parts.counter {
            Ok(ids) => {
                let opened = AirQualityStore::from_parts(parts.regions, ids, parts.records);
                assert(memory_pages(&memory) == 0 ==> opened->Ok_0@.records
                    =~= StoreState::blank().records);
                opened
            },
            Err(_) => Err(OpenError::Counter),
        }
    }

    /// Lays out a new store on `memory`, which has to be a memory of no
    /// pages: the store holds nothing, and its counter stands at zero. A
    /// memory that has pages is refused.
    pub fn create(memory: StoreMemory) -> (opened: Result<AirQualityStore, OpenError>)
        ensures
            opened is Ok <==> memory_pages(&memory) == 0,
            opened is Ok ==> opened->Ok_0.wf(),
            opened is Ok ==> opened->Ok_0@ == StoreState::blank(),
            opened is Err ==> opened->Err_0 is NotBlank,
    {
        if memory.pages() == 0 {
            AirQualityStore::init(memory)
        } else {
            Err(OpenError::NotBlank)
        }
    }

    /// Gives up the store and hands back its memory, on which the store can
    /// be opened again.
    pub fn close(self) -> (memory: StoreMemory)
        ensures
            opens(&memory),
    {
        release_containers(self.regions, self.ids, self.records)
    }

    /// The identifier that the next new observation gets.
    pub fn next_id(&self) -> (id: u64)
        ensures
            id == self@.next_id,
    {
        cell_get(&self.ids)
    }

    /// Issues the next identifier: moves the durable counter on by one and
    /// returns the identifier it stood at. Where the counter stands at the
    /// largest integer, nothing is issued and nothing changes.
    pub fn issue_id(&mut self) -> (issued: Option<u64>)
        requires
            old(self).wf(),
        ensures
            final(self).wf(),
            issued is Some <==> old(self)@.next_id < u64::MAX,
            issued is Some ==> issued->0 == old(self)@.next_id,
            issued is Some ==> final(self)@ == old(self)@.with_issued(),
            issued is None ==> final(self)@ == old(self)@,
    {
        let current = cell_get(&self.ids);
        if current == u64::MAX {
            return None;
        }
        match cell_set(&mut self.ids, current + 1) {
            Ok(_) => Some(current),
            Err(_) => None,
        }
    }

    /// The observation stored under `id`, if there is one.
    pub fn _get_air_quality_data(&self, id: &u64) -> (found: Option<AirQualityData>)
        requires
            self.wf(),
        ensures
            found is Some <==> self@.lookup(*id) is Some,
            found is Some ==> found->0@ == self@.lookup(*id)->0,
    {
        match map_get(&self.records, *id) {
            Some(bytes) => decode(&bytes),
            None => None,
        }
    }

    /// Stores `data` under its identifier, in place of what was stored under it.
    pub fn do_insert_air_quality(&mut self, data: &AirQualityData)
        requires
            old(self).wf(),
            fits(data@),
            data.id < old(self)@.next_id,
        ensures
            final(self).wf(),
            final(self)@ == old(self)@.with_record(data@),
    {
        proof {
            use_type_invariant(&data.pollutant_levels);
            decode_encode(data@);
            encode_record_len(data@);
        }
        let bytes = encode(data).unwrap();
        map_insert(&mut self.records, data.id, &bytes);
        assert(self@.records =~= old(self)@.records.insert(data.id, data@));
        assert(self@ == old(self)@.with_record(data@));
    }

    /// Takes the observation under `id` out of the store and returns it, if
    /// there is one.
    pub fn remove(&mut self, id: u64) -> (removed: Option<AirQualityData>)
        requires
            old(self).wf(),
        ensures
            final(self).wf(),
            final(self)@ == old(self)@.without(id),
            removed is Some <==> old(self)@.lookup(id) is Some,
            removed is Some ==> removed->0@ == old(self)@.lookup(id)->0,
    {
        let previous = map_remove(&mut self.records, id);
        assert(self@.records =~= old(self)@.records.remove(id));
        assert(self@ == old(self)@.without(id));
        match previous {
            Some(bytes) => decode(&bytes),
            None => None,
        }
    }

    /// Every observation, in ascending order of identifier.
    pub fn iterate(&self) -> (all: Vec<AirQualityData>)
        requires
            self.wf(),
        ensures
            views(all@) == ordered(self@.records),
    {
        let list = map_list(&self.records);
        let ghost entries = map_entries(&self.records);
        let mut all: Vec<AirQualityData> = Vec::new();
        let mut i: usize = 0;
        while i < list.len()
            invariant
                i <= list.len(),
                all@.len() == i,
                entries == map_entries(&self.records),
                sound(entries, cell_value(&self.ids)),
                lists_entries(list@, entries),
                forall|k: int| 0 <= k < i ==> (#[trigger] all@[k])@ == decoded(entries)[list@[k].0],
            decreases list.len() - i,
        {
            assert(entries.contains_key(list@[i as int].0));
            let record = decode(&list[i].1).unwrap();
            all.push(record);
            i += 1;
        }
        proof {
            let found = views(all@);
            let records = self@.records;
            assert forall|a: int, b: int| 0 <= a < b < found.len() implies (#[trigger] found[a]).id
                < (#[trigger] found[b]).id by {
                assert(entries.contains_key(list@[a].0));
                assert(entries.contains_key(list@[b].0));
                assert(list@[a].0 < list@[b].0);
            }
            assert forall|a: int| 0 <= a < found.len() implies records.contains_key(
                (#[trigger] found[a]).id,
            ) && records[found[a].id] == found[a] by {
                assert(entries.contains_key(list@[a].0));
            }
            assert forall|id: u64| #[trigger] records.contains_key(id) implies exists|a: int|
                0 <= a < found.len() && (#[trigger] found[a]).id == id by {
                assert(entries.contains_key(id));
                let a = choose|a: int| 0 <= a < list@.len() && (#[trigger] list@[a]).0 == id;
                assert(found[a].id == id);
            }
            listing_is_ordered(found, records);
        }
        all
    }

    /// The observation stored under `id`, or the report that there is none.
    pub fn get_air_quality_data(&self, id: u64) -> (found: Result<AirQualityData, Error>)
        requires
            self.wf(),
        ensures
            found is Ok <==> self@.lookup(id) is Some,
            found is Ok ==> found->Ok_0@ == self@.lookup(id)->0,
            found is Err ==> found->Err_0->msg@ == missing_text(id),
    {
        match self._get_air_quality_data(&id) {
            Some(data) => Ok(data),
            None => Err(
                Error::NotFound {
                    msg: join3(
                        "air quality data with id=",
                        render_decimal(id).as_str(),
                        " not found",
                    ),
                },
            ),
        }
    }

    /// Stores a new observation: issues the next identifier, and stores under
    /// it what `data` describes as of the time `now`. Where the counter stands
    /// at the largest integer, nothing is stored and nothing changes.
    pub fn add_air_quality_data(&mut self, data: AirQualityUpdatePayload, now: u64) -> (added:
        Option<AirQualityData>)
        requires
            old(self).wf(),
            payload_fits(data@),
        ensures
            final(self).wf(),
            added is Some <==> old(self)@.next_id < u64::MAX,
            added is Some ==> added->0@ == assemble(old(self)@.next_id, data@, now),
            added is Some ==> final(self)@ == old(self)@.with_new(data@, now),
            added is None ==> final(self)@ == old(self)@,
    {
        proof {
            self.wf_view();
        }
        match self.issue_id() {
            Some(id) => {
                let air_quality_data = AirQualityData::from_payload(id, data, now);
                self.do_insert_air_quality(&air_quality_data);
                Some(air_quality_data)
            },
            None => None,
        }
    }

    /// Replaces the observation under `id` by what `payload` describes as of
    /// the time `now`; the identifier stays. Readings and weather that the
    /// payload leaves out are not kept from the old observation. Where there
    /// is no observation under `id`, nothing changes, whatever the payload.
    pub fn update_air_quality_data(
        &mut self,
        id: u64,
        payload: AirQualityUpdatePayload,
        now: u64,
    ) -> (updated: Result<AirQualityData, Error>)
        requires
            old(self).wf(),
            old(self)@.lookup(id) is Some ==> payload_fits(payload@),
        ensures
            final(self).wf(),
            updated is Ok <==> old(self)@.lookup(id) is Some,
            updated is Ok ==> updated->Ok_0@ == assemble(id, payload@, now),
            updated is Ok ==> final(self)@ == old(self)@.with_update(id, payload@, now),
            updated is Err ==> final(self)@ == old(self)@,
            updated is Err ==> updated->Err_0->msg@ == update_missing_text(id),
    {
        proof {
            self.wf_view();
        }
        match self._get_air_quality_data(&id) {
            Some(_) => {
                let data = AirQualityData::from_payload(id, payload, now);
                self.do_insert_air_quality(&data);
                Ok(data)
            },
            None => Err(
                Error::NotFound {
                    msg: join3(
                        "couldn't update air quality data with id=",
                        render_decimal(id).as_str(),
                        ". data not found",
                    ),
                },
            ),
        }
    }

    /// Takes the observation under `id` out of the store and returns it, or
    /// reports that there is none.
    pub fn delete_air_quality_data(&mut self, id: u64) -> (deleted: Result<AirQualityData, Error>)
        requires
            old(self).wf(),
        ensures
            final(self).wf(),
            final(self)@ == old(self)@.without(id),
            deleted is Ok <==> old(self)@.lookup(id) is Some,
            deleted is Ok ==> deleted->Ok_0@ == old(self)@.lookup(id)->0,
            deleted is Err ==> deleted->Err_0->msg@ == delete_missing_text(id),
    {
        match self.remove(id) {
            Some(data) => Ok(data),
            None => Err(
                Error::NotFound {
                    msg: join3(
                        "couldn't delete air quality data with id=",
                        render_decimal(id).as_str(),
                        ". data not found.",
                    ),
                },
            ),
        }
    }
}

} // verus!
