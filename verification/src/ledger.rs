//! The ledger module: two single-value storage slots with a one-block
//! lifetime, the transactions that fill them, and the inherent decision
//! logic consulted while a block is built.
//!
//! States per block run `Empty -> Stored -> purged`: `weather_data_set`
//! stores the quantized temperature at most once per block,
//! `order_weather_data` records at most one coordinate order per block,
//! and `on_initialize` unconditionally purges both slots, so every block
//! starts from `Empty` and nothing stale leaks into the next block.

use vstd::prelude::*;

use crate::INHERENT_IDENTIFIER;
use crate::coords::scale;
use crate::coords::spec_scale;
use crate::quantize::QuantizedTemperature;
use crate::quantize::decode;
use crate::quantize::spec_decode;

verus! {

/// Who issued a call.
#[derive(Clone, Copy, PartialEq, Eq, Structural, Debug)]
pub enum Origin {
    /// No signature: the block author itself, the only origin allowed to
    /// set the inherent data.
    Unsigned,
    /// A signed user account.
    Signed(u64),
    /// The governance origin; accepted by neither transaction here.
    Root,
}

/// Why a transaction of this module was rejected.
#[derive(Clone, Copy, PartialEq, Eq, Structural, Debug)]
pub enum Error {
    /// The inherent data was already set for the current block.
    AlreadySet,
    /// A weather order was already set for the current block.
    WeatherOrderAlreadySet,
    /// A latitude or longitude string is not a decimal numeral.
    FailedParsingLatitudeOrLongitude,
    /// The event text could not be built.  Rendering is verified total
    /// here, so no execution path returns it; the variant remains part of
    /// the taxonomy a client may see.
    UnableToCreateEventData,
}

/// Outcome of dispatching a call.
#[derive(Clone, Copy, PartialEq, Eq, Structural, Debug)]
pub enum DispatchError {
    /// The origin may not issue this call.
    BadOrigin,
    /// The module itself rejected the call.
    Module(Error),
}

/// What a successful transaction announces.
#[derive(PartialEq, Eq, Debug)]
pub enum Event {
    /// The inherent data was stored; `data` is the reading, e.g. "18.6 °C".
    WeatherDataSet { data: String },
    /// A weather order was stored; the strings are echoed as submitted.
    WeatherOrderSet { latlong: (String, String) },
}

/// A call of this module, as the block author injects or a user submits it.
#[derive(PartialEq, Eq, Debug)]
pub enum Call {
    WeatherDataSet { weather_data: QuantizedTemperature },
    OrderWeatherData { lat_str: String, long_str: String },
}

/// Why constructing or validating the inherent failed; always fatal.
#[derive(Clone, Copy, PartialEq, Eq, Structural, Debug)]
pub enum InherentError {
    /// Decodable inherent data is present, so a block without the
    /// matching inherent call is invalid.
    InherentRequiredForDataPresent,
}

impl InherentError {
    /// Every variant aborts block authoring or validation.
    pub fn is_fatal_error(&self) -> (r: bool)
        ensures
            r,
    {
        true
    }
}

/// Rejection of a bag insertion.
#[derive(Clone, Copy, PartialEq, Eq, Structural, Debug)]
pub enum BagError {
    /// The bag already holds data under this identifier.
    InherentDataExists,
}

/// The ephemeral per-block-construction bag of inherent data: a mapping
/// from 8-byte identifiers to encoded payloads, keys unique.
pub struct InherentData {
    entries: Vec<([u8; 8], Vec<u8>)>,
}

/// The mapping a list of entries denotes, later entries shadowing none
/// because keys are unique.
pub open spec fn entries_map(es: Seq<([u8; 8], Vec<u8>)>) -> Map<Seq<u8>, Seq<u8>>
    decreases es.len(),
{
    if es.len() == 0 {
        Map::empty()
    } else {
        entries_map(es.drop_last()).insert(es.last().0@, es.last().1@)
    }
}

/// Compares two identifiers bytewise.
pub(crate) fn id_eq(a: &[u8; 8], b: &[u8; 8]) -> (r: bool)
    ensures
        r <==> a@ == b@,
{
    let r = a[0] == b[0] && a[1] == b[1] && a[2] == b[2] && a[3] == b[3] && a[4] == b[4] && a[5]
        == b[5] && a[6] == b[6] && a[7] == b[7];
    proof {
        if r {
            assert(a@ =~= b@);
        }
    }
    r
}

proof fn lemma_entries_found(es: Seq<([u8; 8], Vec<u8>)>, i: int)
    requires
        0 <= i < es.len(),
        forall|x: int, y: int| 0 <= x < y < es.len() ==> es[x].0@ != es[y].0@,
    ensures
        entries_map(es).contains_key(es[i].0@),
        entries_map(es)[es[i].0@] == es[i].1@,
    decreases es.len(),
{
    if i == es.len() - 1 {
    } else {
        assert(forall|x: int, y: int|
            0 <= x < y < es.drop_last().len() ==> es.drop_last()[x].0@ != es.drop_last()[y].0@);
        lemma_entries_found(es.drop_last(), i);
        assert(es.last().0@ != es[i].0@);
    }
}

proof fn lemma_entries_absent(es: Seq<([u8; 8], Vec<u8>)>, k: Seq<u8>)
    requires
        forall|j: int| 0 <= j < es.len() ==> (#[trigger] es[j].0)@ != k,
    ensures
        !entries_map(es).contains_key(k),
    decreases es.len(),
{
    if es.len() > 0 {
        assert(forall|j: int|
            0 <= j < es.drop_last().len() ==> (#[trigger] es.drop_last()[j].0)@ != k);
        lemma_entries_absent(es.drop_last(), k);
    }
}

impl InherentData {
    /// The key-to-payload mapping the bag holds.
    pub closed spec fn contents(self) -> Map<Seq<u8>, Seq<u8>> {
        entries_map(self.entries@)
    }

    /// Keys are unique.
    pub closed spec fn well_formed(self) -> bool {
        forall|x: int, y: int|
            0 <= x < y < self.entries@.len() ==> self.entries@[x].0@ != self.entries@[y].0@
    }

    /// An empty bag.
    pub fn new() -> (r: InherentData)
        ensures
            r.well_formed(),
            r.contents() == Map::<Seq<u8>, Seq<u8>>::empty(),
    {
        InherentData { entries: Vec::new() }
    }

    /// Index of the entry under `identifier`, if any.
    fn find(&self, identifier: &[u8; 8]) -> (r: Option<usize>)
        ensures
            match r {
                Some(i) => i < self.entries@.len() && self.entries@[i as int].0@ == identifier@,
                None => forall|j: int|
                    0 <= j < self.entries@.len() ==> (#[trigger] self.entries@[j].0)@
                        != identifier@,
            },
    {
        let n = self.entries.len();
        let mut i: usize = 0;
        while i < n
            invariant
                n == self.entries@.len(),
                i <= n,
                forall|j: int| 0 <= j < i ==> (#[trigger] self.entries@[j].0)@ != identifier@,
            decreases n - i,
        {
            if id_eq(&self.entries[i].0, identifier) {
                return Some(i);
            }
            i = i + 1;
        }
        None
    }

    /// Stores `data` under `identifier`; the bag refuses a second payload
    /// under the same identifier.
    pub fn put_data(&mut self, identifier: [u8; 8], data: Vec<u8>) -> (r: Result<(), BagError>)
        requires
            old(self).well_formed(),
        ensures
            final(self).well_formed(),
            match r {
                Ok(()) => !old(self).contents().contains_key(identifier@) && final(self).contents()
                    == old(self).contents().insert(identifier@, data@),
                Err(e) => e == BagError::InherentDataExists && old(self).contents().contains_key(
                    identifier@,
                ) && *final(self) == *old(self),
            },
    {
        match self.find(&identifier) {
            Some(i) => {
                proof {
                    lemma_entries_found(self.entries@, i as int);
                }
                Err(BagError::InherentDataExists)
            },
            None => {
                proof {
                    lemma_entries_absent(self.entries@, identifier@);
                }
                self.entries.push((identifier, data));
                proof {
                    assert(self.entries@.drop_last() =~= old(self).entries@);
                }
                Ok(())
            },
        }
    }

    /// The payload under `identifier`, if any.
    pub fn get_data(&self, identifier: &[u8; 8]) -> (r: Option<Vec<u8>>)
        requires
            self.well_formed(),
        ensures
            match r {
                Some(v) => self.contents().contains_key(identifier@) && v@
                    == self.contents()[identifier@],
                None => !self.contents().contains_key(identifier@),
            },
    {
        match self.find(identifier) {
            Some(i) => {
                proof {
                    lemma_entries_found(self.entries@, i as int);
                }
                Some(vstd::slice::slice_to_vec(self.entries[i].1.as_slice()))
            },
            None => {
                proof {
                    lemma_entries_absent(self.entries@, identifier@);
                }
                None
            },
        }
    }
}

/// The parts-per-million count carried for this module in the bag, when
/// present and well formed.
pub open spec fn spec_get_and_decode(bag: InherentData) -> Option<int> {
    if bag.contents().contains_key(INHERENT_IDENTIFIER@) {
        spec_decode(bag.contents()[INHERENT_IDENTIFIER@])
    } else {
        None
    }
}

/// The ledger module's own state: the two per-block storage slots.
pub struct Pallet {
    stored: Option<QuantizedTemperature>,
    order: Option<(i16, i16)>,
}

impl Pallet {
    /// The quantized temperature stored this block, if any.
    pub closed spec fn spec_stored(self) -> Option<QuantizedTemperature> {
        self.stored
    }

    /// The scaled coordinate order stored this block, if any.
    pub closed spec fn spec_order(self) -> Option<(i16, i16)> {
        self.order
    }

    /// Whatever is stored satisfies the fraction's invariant.
    pub open spec fn well_formed(self) -> bool {
        match self.spec_stored() {
            Some(q) => q.well_formed(),
            None => true,
        }
    }

    /// Genesis: both slots empty.
    pub fn new() -> (r: Pallet)
        ensures
            r.well_formed(),
            r.spec_stored() is None,
            r.spec_order() is None,
    {
        Pallet { stored: None, order: None }
    }

    /// Read-only view of the stored inherent data.
    pub fn stored_inherent_data(&self) -> (r: Option<QuantizedTemperature>)
        ensures
            r == self.spec_stored(),
    {
        self.stored
    }

    /// Read-only view of the weather order, as the provider queries it.
    pub fn weather_order(&self) -> (r: Option<(i16, i16)>)
        ensures
            r == self.spec_order(),
    {
        self.order
    }

    /// The system transaction injected by the block author: stores the
    /// quantized temperature, at most once per block, and announces the
    /// reading.  Only the unsigned origin may call it; a failed call
    /// leaves the state untouched.
    pub fn weather_data_set(&mut self, origin: Origin, weather_data: QuantizedTemperature) -> (r:
        Result<Event, DispatchError>)
        requires
            old(self).well_formed(),
            weather_data.well_formed(),
        ensures
            final(self).well_formed(),
            match r {
                Ok(ev) => origin is Unsigned
                    && old(self).spec_stored() is None
                    && final(self).spec_stored() == Some(weather_data)
                    && final(self).spec_order() == old(self).spec_order()
                    && (ev matches Event::WeatherDataSet { data }
                        && data@ == weather_data.spec_message()),
                Err(e) => *final(self) == *old(self) && match e {
                    DispatchError::BadOrigin => !(origin is Unsigned),
                    DispatchError::Module(m) => origin is Unsigned
                        && old(self).spec_stored() is Some
                        && m == Error::AlreadySet,
                },
            },
    {
        match origin {
            Origin::Unsigned => {},
            _ => { return Err(DispatchError::BadOrigin) },
        }
        if self.stored.is_some() {
            return Err(DispatchError::Module(Error::AlreadySet));
        }
        self.stored = Some(weather_data);
        let data = weather_data.message();
        Ok(Event::WeatherDataSet { data })
    }

    /// The user transaction recording a coordinate order: parses both
    /// strings as decimal numerals, scales them to the 16-bit form, and
    /// stores them, at most one order per block.  Any signed account may
    /// call it; a failed call leaves the state untouched.
    pub fn order_weather_data(&mut self, origin: Origin, lat_str: String, long_str: String) -> (r:
        Result<Event, DispatchError>)
        requires
            old(self).well_formed(),
        ensures
            final(self).well_formed(),
            match r {
                Ok(ev) => origin is Signed
                    && old(self).spec_order() is None
                    && spec_scale(lat_str@) is Some
                    && spec_scale(long_str@) is Some
                    && (final(self).spec_order() matches Some((la, lo))
                        && la as int == spec_scale(lat_str@)->Some_0
                        && lo as int == spec_scale(long_str@)->Some_0)
                    && final(self).spec_stored() == old(self).spec_stored()
                    && (ev matches Event::WeatherOrderSet { latlong }
                        && latlong.0@ == lat_str@
                        && latlong.1@ == long_str@),
                Err(e) => *final(self) == *old(self) && match e {
                    DispatchError::BadOrigin => !(origin is Signed),
                    DispatchError::Module(m) => origin is Signed
                        && ((m == Error::FailedParsingLatitudeOrLongitude
                            && (spec_scale(lat_str@) is None || spec_scale(long_str@) is None))
                        || (m == Error::WeatherOrderAlreadySet
                            && spec_scale(lat_str@) is Some
                            && spec_scale(long_str@) is Some
                            && old(self).spec_order() is Some)),
                },
            },
    {
        match origin {
            Origin::Signed(_) => {},
            _ => { return Err(DispatchError::BadOrigin) },
        }
        let lat = match scale(lat_str.as_str()) {
            Some(v) => v,
            None => {
                return Err(DispatchError::Module(Error::FailedParsingLatitudeOrLongitude));
            },
        };
        let long = match scale(long_str.as_str()) {
            Some(v) => v,
            None => {
                return Err(DispatchError::Module(Error::FailedParsingLatitudeOrLongitude));
            },
        };
        if self.order.is_some() {
            return Err(DispatchError::Module(Error::WeatherOrderAlreadySet));
        }
        self.order = Some((lat, long));
        Ok(Event::WeatherOrderSet { latlong: (lat_str, long_str) })
    }

    /// Applies one call of this module under its origin: the explicit
    /// transaction entry point.  A failed call rolls back completely.
    pub fn dispatch(&mut self, origin: Origin, call: Call) -> (r: Result<Event, DispatchError>)
        requires
            old(self).well_formed(),
            call matches Call::WeatherDataSet { weather_data } ==> weather_data.well_formed(),
        ensures
            final(self).well_formed(),
            r is Err ==> *final(self) == *old(self),
            match call {
                Call::WeatherDataSet { weather_data } => match r {
                    Ok(ev) => origin is Unsigned
                        && old(self).spec_stored() is None
                        && final(self).spec_stored() == Some(weather_data)
                        && final(self).spec_order() == old(self).spec_order()
                        && (ev matches Event::WeatherDataSet { data }
                            && data@ == weather_data.spec_message()),
                    Err(e) => match e {
                        DispatchError::BadOrigin => !(origin is Unsigned),
                        DispatchError::Module(m) => origin is Unsigned
                            && old(self).spec_stored() is Some
                            && m == Error::AlreadySet,
                    },
                },
                Call::OrderWeatherData { lat_str, long_str } => match r {
                    Ok(ev) => origin is Signed
                        && old(self).spec_order() is None
                        && spec_scale(lat_str@) is Some
                        && spec_scale(long_str@) is Some
                        && (final(self).spec_order() matches Some((la, lo))
                            && la as int == spec_scale(lat_str@)->Some_0
                            && lo as int == spec_scale(long_str@)->Some_0)
                        && final(self).spec_stored() == old(self).spec_stored()
                        && (ev matches Event::WeatherOrderSet { latlong }
                            && latlong.0@ == lat_str@
                            && latlong.1@ == long_str@),
                    Err(e) => match e {
                        DispatchError::BadOrigin => !(origin is Signed),
                        DispatchError::Module(m) => origin is Signed
                            && ((m == Error::FailedParsingLatitudeOrLongitude
                                && (spec_scale(lat_str@) is None || spec_scale(long_str@) is None))
                            || (m == Error::WeatherOrderAlreadySet
                                && spec_scale(lat_str@) is Some
                                && spec_scale(long_str@) is Some
                                && old(self).spec_order() is Some)),
                    },
                },
            },
    {
        match call {
            Call::WeatherDataSet { weather_data } => self.weather_data_set(origin, weather_data),
            Call::OrderWeatherData { lat_str, long_str } => self.order_weather_data(
                origin,
                lat_str,
                long_str,
            ),
        }
    }

    /// The block-initialization hook: unconditionally purges both slots,
    /// bounding both records' lifetime to exactly one block.
    pub fn on_initialize(&mut self)
        ensures
            final(self).well_formed(),
            final(self).spec_stored() is None,
            final(self).spec_order() is None,
    {
        self.stored = None;
        self.order = None;
    }

    /// Whether a block must carry this module's inherent: it must exactly
    /// when decodable inherent data is present in the bag.
    pub fn is_inherent_required(data: &InherentData) -> (r: Result<
        Option<InherentError>,
        InherentError,
    >)
        requires
            data.well_formed(),
        ensures
            r matches Ok(o) && (o == Some(InherentError::InherentRequiredForDataPresent) <==>
            spec_get_and_decode(*data) is Some) && (o is None <==> spec_get_and_decode(
                *data,
            ) is None),
    {
        match Self::get_and_decode_data(data) {
            Some(_) => Ok(Some(InherentError::InherentRequiredForDataPresent)),
            None => Ok(None),
        }
    }

    /// The call to inject into the block, when the bag holds well-formed
    /// data for this module; nothing otherwise.
    pub fn create_inherent(data: &InherentData) -> (r: Option<Call>)
        requires
            data.well_formed(),
        ensures
            match r {
                Some(c) => c matches Call::WeatherDataSet { weather_data }
                    && spec_get_and_decode(*data) == Some(weather_data.ppm() as int)
                    && weather_data.well_formed(),
                None => spec_get_and_decode(*data) is None,
            },
    {
        match Self::get_and_decode_data(data) {
            Some(weather_data) => Some(Call::WeatherDataSet { weather_data }),
            None => None,
        }
    }

    /// Only `weather_data_set` is this module's inherent; every other
    /// call is an ordinary transaction.
    pub fn is_inherent(call: &Call) -> (r: bool)
        ensures
            r == (call is WeatherDataSet),
    {
        match call {
            Call::WeatherDataSet { .. } => true,
            _ => false,
        }
    }

    /// Reads this module's payload from the bag and decodes it,
    /// fail-closed: anything absent or malformed yields nothing.
    pub fn get_and_decode_data(data: &InherentData) -> (r: Option<QuantizedTemperature>)
        requires
            data.well_formed(),
        ensures
            match r {
                Some(q) => spec_get_and_decode(*data) == Some(q.ppm() as int) && q.well_formed(),
                None => spec_get_and_decode(*data) is None,
            },
    {
        match data.get_data(&INHERENT_IDENTIFIER) {
            Some(bytes) => decode(bytes.as_slice()),
            None => None,
        }
    }
}

} // verus!
