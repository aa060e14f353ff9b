//! The data model: the query sent to the flight-search provider, the
//! response graph it returns, and the flattened records produced for display.
//!
//! The provider's response is a graph of records cross-referenced by opaque
//! string IDs.  Each ID-keyed map is held as a vector of `(id, record)`
//! entries, looked up by first match; `assoc_find` is the specification of
//! that lookup.  Prices travel as decimal strings and are parsed into exact
//! integer micro-units (millionths of the provider's price unit), so ordering
//! and display are exact integer arithmetic.

use vstd::prelude::*;

verus! {

/// A request body for the provider's search-creation endpoint.
pub struct CreateFlightsRequest {
    pub query: Query,
}

/// An immutable description of one round-trip search.
pub struct Query {
    pub market: String,
    pub locale: String,
    pub currency: String,
    pub query_legs: Vec<QueryLeg>,
    pub cabin_class: CabinClass,
    pub adults: u16,
    pub children_ages: Vec<u16>,
    pub include_carriers_ids: Vec<String>,
    pub exclude_carriers_ids: Vec<String>,
    pub include_agents_ids: Vec<String>,
    pub exclude_agents_ids: Vec<String>,
    pub include_sustain_ability_data: bool,
    pub near_by_airports: bool,
}

/// One directed leg of a query: origin, destination and departure date.
pub struct QueryLeg {
    pub origin_place_id: Place,
    pub destination_place_id: Place,
    pub date: Date,
}

/// A place referenced by a query leg: an IATA code or an internal entity ID,
/// never both.
pub struct Place {
    pub iata: Option<String>,
    pub entry_id: Option<i32>,
}

/// A calendar date as plain year, month and day.
#[derive(Clone, Copy, Debug, PartialEq, Eq, Structural)]
pub struct Date {
    pub year: i32,
    pub month: u32,
    pub day: u32,
}

/// The cabin class requested for a search.
#[derive(Clone, Copy, Debug, PartialEq, Eq, Structural)]
pub enum CabinClass {
    CabinClassUnspecified,
    CabinClassEconomy,
    CabinClassPremiumEconomy,
    CabinClassBusiness,
    CabinClassFirst,
}

/// The markets known to the provider.
pub struct Markets {
    pub markets: Vec<Market>,
}

/// One market: a country code and its display name.
pub struct Market {
    pub code: String,
    pub name: String,
}

/// The locales known to the provider.
pub struct Locales {
    pub locales: Vec<Locale>,
}

/// One locale: a language tag and its display name.
pub struct Locale {
    pub code: String,
    pub name: String,
}

/// One snapshot of a search session: the token to poll it with, its status,
/// and the current result graph.
pub struct FlightsResponse {
    pub session_token: String,
    pub status: ResponseStatus,
    pub action: ResponseAction,
    pub content: FightsContent,
}

/// The payload of a snapshot.
pub struct FightsContent {
    pub results: FightResult,
}

/// The result graph: records keyed by opaque string IDs, cross-referencing
/// one another.
pub struct FightResult {
    pub itineraries: Vec<(String, Itinerary)>,
    pub legs: Vec<(String, Leg)>,
    pub segments: Vec<(String, Segment)>,
    pub places: Vec<(String, ResponsePlace)>,
    pub carriers: Vec<(String, Carrier)>,
    pub agents: Vec<(String, Agent)>,
    pub alliances: Vec<(String, Alliance)>,
}

/// A complete travel plan: its legs and the prices it is offered at.
pub struct Itinerary {
    pub pricing_options: Vec<PriceOption>,
    pub leg_ids: Vec<String>,
    pub sustainability_data: Option<String>,
}

/// One bookable price for an itinerary.
pub struct PriceOption {
    pub id: String,
    pub price: Price,
    pub agent_ids: Vec<String>,
    pub transfer_type: String,
}

/// A price as the provider sends it: a decimal amount rendered as a string.
pub struct Price {
    pub amount: String,
    pub unit: String,
    pub update_status: String,
}

/// A directed trip from origin to destination, possibly with stops.
pub struct Leg {
    pub origin_place_id: String,
    pub destination_place_id: String,
    pub departure_date_time: ResponseDateTime,
    pub arrival_date_time: ResponseDateTime,
    pub duration_in_minutes: u32,
    pub stop_count: u16,
    pub marketing_carrier_ids: Vec<String>,
    pub operating_carrier_ids: Vec<String>,
    pub segment_ids: Vec<String>,
}

/// A date and time of day, as plain fields.
#[derive(Clone, Copy, Debug, PartialEq, Eq, Structural)]
pub struct ResponseDateTime {
    pub year: u16,
    pub month: u8,
    pub day: u8,
    pub hour: u8,
    pub minute: u8,
    pub second: u8,
}

/// A single uninterrupted flight operated by one carrier.
pub struct Segment {
    pub origin_place_id: String,
    pub destination_place_id: String,
    pub departure_date_time: ResponseDateTime,
    pub arrival_date_time: ResponseDateTime,
    pub duration_in_minutes: u32,
    pub marking_flight_number: Option<String>,
    pub marking_carrier_id: Option<String>,
    pub operating_carrier_id: Option<String>,
}

/// A place in the response graph (airport, city, country or continent).
pub struct ResponsePlace {
    pub entity_id: String,
    pub parent_id: String,
    pub name: String,
    pub iata: String,
    pub kind: PlaceType,
}

/// An airline in the response graph.
pub struct Carrier {
    pub name: String,
    pub alliance_id: String,
    pub image_url: String,
    pub iata: String,
}

/// A travel agent or airline through which an itinerary can be booked.
pub struct Agent {
    pub name: String,
    pub kind: AgentType,
    pub image_url: String,
    pub feedback_count: i32,
    pub is_optimised_for_mobile: bool,
}

/// An airline alliance.
pub struct Alliance {
    pub name: String,
}

/// The status the provider reports for a search session.
#[derive(Clone, Copy, Debug, PartialEq, Eq, Structural)]
pub enum ResponseStatus {
    ResultStatusUnspecified,
    ResultStatusComplete,
    ResultStatusIncomplete,
    ResultStatusFailed,
}

/// How the results in a snapshot relate to the previous snapshot.
#[derive(Clone, Copy, Debug, PartialEq, Eq, Structural)]
pub enum ResponseAction {
    ResultActionUnspecified,
    ResultActionReplaced,
    ResultActionNotModified,
    ResultActionOmitted,
}

/// The kind of a place record.
#[derive(Clone, Copy, Debug, PartialEq, Eq, Structural)]
pub enum PlaceType {
    PlaceTypeUnspecified,
    PlaceTypeAirport,
    PlaceTypeCity,
    PlaceTypeCountry,
    PlaceTypeContinent,
}

/// The kind of an agent record.
#[derive(Clone, Copy, Debug, PartialEq, Eq, Structural)]
pub enum AgentType {
    AgentTypeUnspecified,
    AgentTypeTravelAgent,
    AgentTypeAirline,
}

/// One itinerary flattened for display: its surviving prices in micro-units
/// of the provider's price unit, and one detail row per leg.
#[derive(Debug, PartialEq)]
pub struct FormattedResult {
    pub price_options: Vec<u64>,
    pub details: Vec<Details>,
}

/// One leg of a formatted itinerary, ready for display.
#[derive(Debug, PartialEq)]
pub struct Details {
    pub departure_date: ResponseDateTime,
    pub arrival_date: ResponseDateTime,
    pub stop_count: u16,
    pub segments: Vec<String>,
    pub carrier_name: String,
}

/// Whether a query-side place names exactly one of an IATA code or an
/// internal entity ID.
pub open spec fn spec_place_wf(p: Place) -> bool {
    p.iata is Some <==> !(p.entry_id is Some)
}

impl Default for Query {
    /// An empty economy-class query for one adult, with no legs yet.
    fn default() -> (q: Self)
        ensures
            q.market@ == Seq::<char>::empty(),
            q.locale@ == Seq::<char>::empty(),
            q.currency@ == Seq::<char>::empty(),
            q.query_legs@ == Seq::<QueryLeg>::empty(),
            q.cabin_class == CabinClass::CabinClassEconomy,
            q.adults == 1,
            q.children_ages@ == Seq::<u16>::empty(),
            q.include_carriers_ids@ == Seq::<String>::empty(),
            q.exclude_carriers_ids@ == Seq::<String>::empty(),
            q.include_agents_ids@ == Seq::<String>::empty(),
            q.exclude_agents_ids@ == Seq::<String>::empty(),
            !q.include_sustain_ability_data,
            !q.near_by_airports,
    {
        Self {
            market: String::new(),
            locale: String::new(),
            currency: String::new(),
            query_legs: Vec::new(),
            cabin_class: CabinClass::CabinClassEconomy,
            adults: 1,
            children_ages: Vec::new(),
            include_carriers_ids: Vec::new(),
            exclude_carriers_ids: Vec::new(),
            include_agents_ids: Vec::new(),
            exclude_agents_ids: Vec::new(),
            include_sustain_ability_data: false,
            near_by_airports: false,
        }
    }
}

impl Query {
    /// Returns the query with its market replaced.
    pub fn set_market(self, market: String) -> (q: Self)
        ensures
            q == (Query { market, ..self }),
    {
        Query { market, ..self }
    }

    /// Returns the query with its locale replaced.
    pub fn set_locale(self, locale: String) -> (q: Self)
        ensures
            q == (Query { locale, ..self }),
    {
        Query { locale, ..self }
    }

    /// Returns the query with its currency replaced.
    pub fn set_currency(self, currency: String) -> (q: Self)
        ensures
            q == (Query { currency, ..self }),
    {
        Query { currency, ..self }
    }

    /// Returns the query with its cabin class replaced.
    pub fn set_cabin_class(self, cabin_class: CabinClass) -> (q: Self)
        ensures
            q == (Query { cabin_class, ..self }),
    {
        Query { cabin_class, ..self }
    }

    /// Returns the query with its adult count replaced.
    pub fn set_adults(self, adults: u16) -> (q: Self)
        ensures
            q == (Query { adults, ..self }),
    {
        Query { adults, ..self }
    }

    /// Returns the query with `leg` appended to its legs.
    pub fn set_query_leg(self, leg: QueryLeg) -> (q: Self)
        ensures
            q.query_legs@ == self.query_legs@.push(leg),
            q == (Query { query_legs: q.query_legs, ..self }),
    {
        let mut legs = self.query_legs;
        legs.push(leg);
        Query { query_legs: legs, ..self }
    }
}

impl Date {
    /// Builds a date from its parts.
    pub fn new(year: i32, month: u32, day: u32) -> (d: Self)
        ensures
            d == (Date { year, month, day }),
    {
        Self { year, month, day }
    }
}

impl Place {
    /// Builds a place from an IATA code or an entity ID; exactly one of the
    /// two must be given.
    pub fn new(iata: Option<String>, entry_id: Option<i32>) -> (p: Self)
        requires
            (iata is Some) <==> !(entry_id is Some),
        ensures
            p == (Place { iata, entry_id }),
            spec_place_wf(p),
    {
        Self { iata, entry_id }
    }
}

impl QueryLeg {
    /// Builds a leg flying `from` to `to` on `date`.
    pub fn new(from: Place, to: Place, date: Date) -> (l: Self)
        ensures
            l == (QueryLeg { origin_place_id: from, destination_place_id: to, date }),
    {
        Self { origin_place_id: from, destination_place_id: to, date }
    }
}

impl CreateFlightsRequest {
    /// Wraps a query as a request body.
    pub fn new(q: Query) -> (r: Self)
        ensures
            r == (CreateFlightsRequest { query: q }),
    {
        Self { query: q }
    }
}

/// Copies a vector of strings.
fn clone_strings(v: &Vec<String>) -> (r: Vec<String>)
    ensures
        r@ == v@,
{
    let mut r: Vec<String> = Vec::new();
    let mut i: usize = 0;
    while i < v.len()
        invariant
            0 <= i <= v@.len(),
            r@ == v@.take(i as int),
        decreases v@.len() - i,
    {
        r.push(v[i].clone());
        proof {
            assert(r@ =~= v@.take(i as int + 1));
        }
        i = i + 1;
    }
    proof {
        assert(v@.take(v@.len() as int) =~= v@);
    }
    r
}

/// Copies a vector of numbers.
fn clone_u16s(v: &Vec<u16>) -> (r: Vec<u16>)
    ensures
        r@ == v@,
{
    let mut r: Vec<u16> = Vec::new();
    let mut i: usize = 0;
    while i < v.len()
        invariant
            0 <= i <= v@.len(),
            r@ == v@.take(i as int),
        decreases v@.len() - i,
    {
        r.push(v[i]);
        proof {
            assert(r@ =~= v@.take(i as int + 1));
        }
        i = i + 1;
    }
    proof {
        assert(v@.take(v@.len() as int) =~= v@);
    }
    r
}

impl Place {
    /// An equal copy of this place.
    pub fn duplicate(&self) -> (r: Self)
        ensures
            r == *self,
    {
        Self {
            iata: match &self.iata {
                Some(s) => Some(s.clone()),
                None => None,
            },
            entry_id: self.entry_id,
        }
    }
}

impl QueryLeg {
    /// An equal copy of this leg.
    pub fn duplicate(&self) -> (r: Self)
        ensures
            r == *self,
    {
        Self {
            origin_place_id: self.origin_place_id.duplicate(),
            destination_place_id: self.destination_place_id.duplicate(),
            date: self.date,
        }
    }
}

/// Copies a vector of query legs.
fn clone_query_legs(v: &Vec<QueryLeg>) -> (r: Vec<QueryLeg>)
    ensures
        r@ == v@,
{
    let mut r: Vec<QueryLeg> = Vec::new();
    let mut i: usize = 0;
    while i < v.len()
        invariant
            0 <= i <= v@.len(),
            r@ == v@.take(i as int),
        decreases v@.len() - i,
    {
        r.push(v[i].duplicate());
        proof {
            assert(r@ =~= v@.take(i as int + 1));
        }
        i = i + 1;
    }
    proof {
        assert(v@.take(v@.len() as int) =~= v@);
    }
    r
}

/// Whether `a` and `b` agree on every attribute of a query.
pub open spec fn spec_query_eq(a: Query, b: Query) -> bool {
    &&& a.market == b.market
    &&& a.locale == b.locale
    &&& a.currency == b.currency
    &&& a.query_legs@ == b.query_legs@
    &&& a.cabin_class == b.cabin_class
    &&& a.adults == b.adults
    &&& a.children_ages@ == b.children_ages@
    &&& a.include_carriers_ids@ == b.include_carriers_ids@
    &&& a.exclude_carriers_ids@ == b.exclude_carriers_ids@
    &&& a.include_agents_ids@ == b.include_agents_ids@
    &&& a.exclude_agents_ids@ == b.exclude_agents_ids@
    &&& a.include_sustain_ability_data == b.include_sustain_ability_data
    &&& a.near_by_airports == b.near_by_airports
}

impl Query {
    /// A copy of this query, equal in every attribute: one is built per
    /// date pair.
    pub fn duplicate(&self) -> (r: Self)
        ensures
            spec_query_eq(r, *self),
    {
        let r = Self {
            market: self.market.clone(),
            locale: self.locale.clone(),
            currency: self.currency.clone(),
            query_legs: clone_query_legs(&self.query_legs),
            cabin_class: self.cabin_class,
            adults: self.adults,
            children_ages: clone_u16s(&self.children_ages),
            include_carriers_ids: clone_strings(&self.include_carriers_ids),
            exclude_carriers_ids: clone_strings(&self.exclude_carriers_ids),
            include_agents_ids: clone_strings(&self.include_agents_ids),
            exclude_agents_ids: clone_strings(&self.exclude_agents_ids),
            include_sustain_ability_data: self.include_sustain_ability_data,
            near_by_airports: self.near_by_airports,
        };
        r
    }
}

} // verus!
