//! The formatter: flattening the provider's result graph into displayable
//! records, parsing prices, rendering display text, and the price order the
//! final output is sorted by.
//!
//! Prices arrive as decimal strings and are parsed into exact micro-units
//! (millionths of the provider's price unit): a `u64` count, so comparison
//! and display are integer arithmetic.  An itinerary whose leg or carrier
//! references dangle is a hard inconsistency and is skipped; dangling
//! segment or place references fall back to the raw ID, behind the same
//! ellipsis prefix every segment code carries.

use vstd::multiset::Multiset;
use vstd::prelude::*;

use crate::domain::Details;
use crate::domain::FightResult;
use crate::domain::FormattedResult;
use crate::domain::Itinerary;
use crate::domain::Leg;
use crate::domain::PriceOption;
use crate::domain::ResponseDateTime;
use crate::utils::lemma_digits_val_nonneg;
use crate::utils::lemma_digits_val_prefix;
use crate::utils::lemma_first_at_characterisation;
use crate::utils::spec_all_digits;
use crate::utils::spec_digit_val;
use crate::utils::spec_digits_val;
use crate::utils::spec_first_at;
use crate::utils::spec_is_digit;

verus! {

/// The record stored under `key` in an ID-keyed entry list, by first match.
pub open spec fn assoc_find<T>(entries: Seq<(String, T)>, key: Seq<char>) -> Option<T>
    decreases entries.len(),
{
    if entries.len() == 0 {
        None
    } else if entries[0].0@ == key {
        Some(entries[0].1)
    } else {
        assoc_find(entries.drop_first(), key)
    }
}

/// Looks `key` up in an ID-keyed entry list.
#[verifier::loop_isolation(false)]
pub fn assoc_get<'a, T>(entries: &'a Vec<(String, T)>, key: &String) -> (r: Option<&'a T>)
    ensures
        match r {
            Some(v) => assoc_find(entries@, key@) == Some(*v),
            None => assoc_find(entries@, key@) is None,
        },
{
    let mut i: usize = 0;
    proof {
        assert(entries@.skip(0) =~= entries@);
    }
    while i < entries.len()
        invariant
            0 <= i <= entries@.len(),
            assoc_find(entries@, key@) == assoc_find(entries@.skip(i as int), key@),
        decreases entries@.len() - i,
    {
        proof {
            assert(entries@.skip(i as int)[0] == entries@[i as int]);
            assert(entries@.skip(i as int).drop_first() =~= entries@.skip(i as int + 1));
        }
        if entries[i].0 == *key {
            return Some(&entries[i].1);
        }
        i = i + 1;
    }
    None
}

/// One million: micro-units per provider price unit.
pub const MICROS_PER_UNIT: u64 = 1000000;

/// Ten to the `k`th power.
pub open spec fn spec_pow10(k: int) -> int
    decreases k,
{
    if k <= 0 {
        1
    } else {
        10 * spec_pow10(k - 1)
    }
}

/// The price amount grammar: one or more ASCII digits, optionally followed
/// by a point and up to six fraction digits, denoting a value whose count
/// of micro-units fits in a `u64`.  Anything else - the empty string, a
/// sign, an exponent, a longer fraction or a larger amount - is rejected
/// rather than rounded.
pub open spec fn spec_amount_micros(s: Seq<char>) -> Option<u64> {
    let dot = spec_first_at(s, '.');
    let ipart = s.take(dot);
    let frac = if dot < s.len() {
        s.skip(dot + 1)
    } else {
        Seq::<char>::empty()
    };
    let value = spec_digits_val(ipart) * MICROS_PER_UNIT + spec_digits_val(frac) * spec_pow10(
        6 - frac.len(),
    );
    if ipart.len() > 0 && spec_all_digits(ipart) && frac.len() <= 6 && spec_all_digits(frac)
        && value <= u64::MAX {
        Some(value as u64)
    } else {
        None
    }
}

proof fn lemma_add_nonneg_product_exceeds(a: int, b: int, c: int, m: int)
    requires
        a > m,
        b >= 0,
        c >= 1,
    ensures
        a + b * c > m,
{
    assert(b * c >= 0) by (nonlinear_arith)
        requires
            b >= 0,
            c >= 0,
    ;
}

proof fn lemma_pow10_pos(k: int)
    ensures
        spec_pow10(k) >= 1,
    decreases k,
{
    if k > 0 {
        lemma_pow10_pos(k - 1);
    }
}

proof fn lemma_pow10_six()
    ensures
        spec_pow10(0) == 1,
        spec_pow10(1) == 10,
        spec_pow10(2) == 100,
        spec_pow10(3) == 1000,
        spec_pow10(4) == 10000,
        spec_pow10(5) == 100000,
        spec_pow10(6) == 1000000,
{
    assert(spec_pow10(0) == 1);
    assert(spec_pow10(1) == 10);
    assert(spec_pow10(2) == 100);
    assert(spec_pow10(3) == 1000);
    assert(spec_pow10(4) == 10000);
    assert(spec_pow10(5) == 100000);
    assert(spec_pow10(6) == 1000000);
}

proof fn lemma_pow10_mono(a: int, b: int)
    requires
        a <= b,
    ensures
        spec_pow10(a) <= spec_pow10(b),
    decreases b - a,
{
    if a < b {
        lemma_pow10_mono(a, b - 1);
        lemma_pow10_pos(b - 1);
    }
}

/// Parses a price amount into micro-units, accepting exactly the grammar
/// of `spec_amount_micros`.
#[verifier::loop_isolation(false)]
fn parse_amount_micros(s: &str) -> (r: Option<u64>)
    ensures
        r == spec_amount_micros(s@),
{
    let len = s.unicode_len();
    let mut dot: usize = 0;
    while dot < len && s.get_char(dot) != '.'
        invariant
            0 <= dot <= len,
            forall|k: int| 0 <= k < dot ==> s@[k] != '.',
        decreases len - dot,
    {
        dot = dot + 1;
    }
    proof {
        lemma_first_at_characterisation(s@, '.', dot as int);
    }
    let ghost ipart = s@.take(dot as int);
    let ghost frac = if (dot as int) < s@.len() {
        s@.skip(dot as int + 1)
    } else {
        Seq::<char>::empty()
    };
    if dot == 0 {
        return None;
    }
    let flen: usize = if dot < len {
        len - dot - 1
    } else {
        0
    };
    proof {
        assert(frac.len() == flen);
    }
    if flen > 6 {
        return None;
    }
    let mut ival: u64 = 0;
    let mut i: usize = 0;
    while i < dot
        invariant
            0 <= i <= dot,
            spec_all_digits(ipart.take(i as int)),
            ival == spec_digits_val(ipart.take(i as int)),
        decreases dot - i,
    {
        let c = s.get_char(i);
        let cv = c as u32;
        proof {
            assert(ipart[i as int] == s@[i as int]);
            assert(ipart.take(i as int + 1).drop_last() =~= ipart.take(i as int));
            assert(ipart.take(i as int + 1).last() == ipart[i as int]);
        }
        if cv < 48 || cv > 57 {
            proof {
                assert(!spec_is_digit(ipart[i as int]));
                assert(!spec_all_digits(ipart));
            }
            return None;
        }
        let d = (cv - 48) as u64;
        let stepped = ival.checked_mul(10);
        let next = match stepped {
            Some(v) => v.checked_add(d),
            None => None,
        };
        match next {
            Some(v) => {
                ival = v;
            },
            None => {
                proof {
                    assert(spec_all_digits(ipart.take(i as int + 1)));
                    assert(spec_digits_val(ipart.take(i as int + 1)) == ival * 10 + d);
                    assert(spec_digits_val(ipart.take(i as int + 1)) > u64::MAX);
                    lemma_digits_val_prefix(ipart, i as int + 1);
                    assert(spec_digits_val(ipart) > u64::MAX);
                    let fv = spec_digits_val(frac);
                    let sc = spec_pow10(6 - frac.len());
                    lemma_digits_val_nonneg(frac);
                    lemma_pow10_pos(6 - frac.len());
                    assert(spec_digits_val(ipart) * MICROS_PER_UNIT + fv * sc > u64::MAX)
                        by (nonlinear_arith)
                        requires
                            spec_digits_val(ipart) > u64::MAX,
                            fv >= 0,
                            sc >= 1,
                    ;
                    assert(spec_amount_micros(s@) is None);
                }
                return None;
            },
        }
        i = i + 1;
    }
    proof {
        assert(ipart.take(dot as int) =~= ipart);
        assert(ival == spec_digits_val(ipart));
    }
    let mut fval: u64 = 0;
    let mut j: usize = 0;
    while j < flen
        invariant
            0 <= j <= flen,
            flen <= 6,
            dot < len || flen == 0,
            spec_all_digits(frac.take(j as int)),
            fval == spec_digits_val(frac.take(j as int)),
            fval < spec_pow10(j as int),
        decreases flen - j,
    {
        let c = s.get_char(dot + 1 + j);
        let cv = c as u32;
        proof {
            assert(frac[j as int] == s@[dot + 1 + j]);
            assert(frac.take(j as int + 1).drop_last() =~= frac.take(j as int));
            assert(frac.take(j as int + 1).last() == frac[j as int]);
        }
        if cv < 48 || cv > 57 {
            proof {
                assert(!spec_is_digit(frac[j as int]));
                assert(!spec_all_digits(frac));
            }
            return None;
        }
        let d = (cv - 48) as u64;
        proof {
            lemma_pow10_mono(j as int + 1, 6);
            lemma_pow10_six();
            assert(fval * 10 + d < spec_pow10(j as int + 1)) by (nonlinear_arith)
                requires
                    0 <= fval < spec_pow10(j as int),
                    d <= 9,
                    spec_pow10(j as int + 1) == 10 * spec_pow10(j as int),
            ;
        }
        fval = fval * 10 + d;
        j = j + 1;
    }
    proof {
        assert(frac.take(flen as int) =~= frac);
        assert(fval == spec_digits_val(frac));
        assert(spec_all_digits(frac));
    }
    let scale = pow10_u64((6 - flen) as u64);
    proof {
        lemma_pow10_mono(flen as int, 6);
        lemma_pow10_mono(6 - flen, 6);
        lemma_pow10_six();
        assert(fval * scale <= 1000000 * 1000000) by (nonlinear_arith)
            requires
                0 <= fval <= 1000000,
                0 <= scale <= 1000000,
        ;
    }
    let fscaled = fval * scale;
    let based = ival.checked_mul(MICROS_PER_UNIT);
    let total = match based {
        Some(v) => v.checked_add(fscaled),
        None => None,
    };
    match total {
        Some(v) => {
            proof {
                assert(v == spec_digits_val(ipart) * MICROS_PER_UNIT + spec_digits_val(frac)
                    * spec_pow10(6 - frac.len()));
            }
            Some(v)
        },
        None => {
            proof {
                lemma_digits_val_nonneg(frac);
                lemma_pow10_pos(6 - frac.len());
                let value = spec_digits_val(ipart) * MICROS_PER_UNIT + fval * spec_pow10(
                    6 - frac.len(),
                );
                if based is None {
                    lemma_add_nonneg_product_exceeds(
                        spec_digits_val(ipart) * MICROS_PER_UNIT,
                        fval as int,
                        spec_pow10(6 - frac.len()),
                        u64::MAX as int,
                    );
                    assert(value > u64::MAX);
                } else {
                    assert(value > u64::MAX);
                }
                assert(spec_amount_micros(s@) is None);
            }
            None
        },
    }
}

/// The mathematical shape of one displayable leg row.
#[verifier::ext_equal]
pub struct DetailsV {
    pub departure_date: ResponseDateTime,
    pub arrival_date: ResponseDateTime,
    pub stop_count: u16,
    pub segments: Seq<Seq<char>>,
    pub carrier_name: Seq<char>,
}

/// The mathematical shape of one formatted itinerary.
#[verifier::ext_equal]
pub struct FormattedResultV {
    pub price_options: Seq<u64>,
    pub details: Seq<DetailsV>,
}

impl View for Details {
    type V = DetailsV;

    open spec fn view(&self) -> DetailsV {
        DetailsV {
            departure_date: self.departure_date,
            arrival_date: self.arrival_date,
            stop_count: self.stop_count,
            segments: self.segments@.map_values(|s: String| s@),
            carrier_name: self.carrier_name@,
        }
    }
}

impl View for FormattedResult {
    type V = FormattedResultV;

    open spec fn view(&self) -> FormattedResultV {
        FormattedResultV {
            price_options: self.price_options@,
            details: self.details@.map_values(|d: Details| d@),
        }
    }
}

/// The display code for one segment reference, always behind an ellipsis
/// prefix: the destination place's IATA code, falling back to the raw
/// place ID where the place is unknown, and to the raw segment ID where
/// the segment itself is unknown.
pub open spec fn spec_segment_code(id: String, g: FightResult) -> Seq<char> {
    "..."@ + match assoc_find(g.segments@, id@) {
        None => id@,
        Some(seg) => match assoc_find(g.places@, seg.destination_place_id@) {
            Some(p) => p.iata@,
            None => seg.destination_place_id@,
        },
    }
}

/// The carrier ID a leg is displayed under: its first marketing carrier,
/// else its first operating carrier, else none.
pub open spec fn spec_carrier_id(leg: Leg) -> Option<String> {
    if leg.marketing_carrier_ids@.len() > 0 {
        Some(leg.marketing_carrier_ids@[0])
    } else if leg.operating_carrier_ids@.len() > 0 {
        Some(leg.operating_carrier_ids@[0])
    } else {
        None
    }
}

/// Whether the carrier a leg is displayed under resolves in the graph; a
/// leg naming no carrier at all is fine (it is shown under a fixed name).
pub open spec fn spec_leg_wf(leg: Leg, g: FightResult) -> bool {
    match spec_carrier_id(leg) {
        Some(id) => assoc_find(g.carriers@, id@) is Some,
        None => true,
    }
}

/// The carrier name a leg is displayed under.
pub open spec fn spec_carrier_name(leg: Leg, g: FightResult) -> Seq<char> {
    match spec_carrier_id(leg) {
        Some(id) => match assoc_find(g.carriers@, id@) {
            Some(c) => c.name@,
            None => "Unknown carrier name"@,
        },
        None => "Unknown carrier name"@,
    }
}

/// The display row for one leg.
pub open spec fn spec_leg_detail(leg: Leg, g: FightResult) -> DetailsV {
    DetailsV {
        departure_date: leg.departure_date_time,
        arrival_date: leg.arrival_date_time,
        stop_count: leg.stop_count,
        segments: leg.segment_ids@.map_values(|id: String| spec_segment_code(id, g)),
        carrier_name: spec_carrier_name(leg, g),
    }
}

/// The display row for one leg reference; an unknown leg gives an empty
/// row, which a well-formed itinerary never contains.
pub open spec fn spec_detail_of_id(id: String, g: FightResult) -> DetailsV {
    match assoc_find(g.legs@, id@) {
        Some(leg) => spec_leg_detail(leg, g),
        None => DetailsV {
            departure_date: ResponseDateTime { year: 0, month: 0, day: 0, hour: 0, minute: 0, second: 0 },
            arrival_date: ResponseDateTime { year: 0, month: 0, day: 0, hour: 0, minute: 0, second: 0 },
            stop_count: 0,
            segments: Seq::empty(),
            carrier_name: Seq::empty(),
        },
    }
}

/// Whether the leg reference `id` resolves to a leg whose displayed
/// carrier also resolves.
pub open spec fn spec_leg_found_wf(id: String, g: FightResult) -> bool {
    match assoc_find(g.legs@, id@) {
        Some(leg) => spec_leg_wf(leg, g),
        None => false,
    }
}

/// Whether every leg reference in `ids` resolves, carriers included.
pub open spec fn spec_legs_wf(ids: Seq<String>, g: FightResult) -> bool {
    forall|k: int| 0 <= k < ids.len() ==> spec_leg_found_wf(#[trigger] ids[k], g)
}

/// Whether an itinerary's leg and carrier references all resolve: the
/// referential invariant the formatter holds an itinerary to.  An
/// itinerary that violates it is a hard inconsistency and is skipped.
pub open spec fn spec_itinerary_wf(it: Itinerary, g: FightResult) -> bool {
    spec_legs_wf(it.leg_ids@, g)
}

/// The prices surviving from a sequence of pricing options: each amount
/// parsed by the price grammar, empty or unparseable amounts dropped.
pub open spec fn spec_prices(options: Seq<PriceOption>) -> Seq<u64>
    decreases options.len(),
{
    if options.len() == 0 {
        Seq::empty()
    } else {
        let rest = spec_prices(options.drop_first());
        match spec_amount_micros(options[0].price.amount@) {
            Some(v) => seq![v] + rest,
            None => rest,
        }
    }
}

/// One formatted itinerary.
pub open spec fn spec_formatted(it: Itinerary, g: FightResult) -> FormattedResultV {
    FormattedResultV {
        price_options: spec_prices(it.pricing_options@),
        details: it.leg_ids@.map_values(|id: String| spec_detail_of_id(id, g)),
    }
}

/// The formatted itineraries for the listed entries, in entry order,
/// skipping itineraries whose references dangle.
pub open spec fn spec_format_entries(entries: Seq<(String, Itinerary)>, g: FightResult) -> Seq<
    FormattedResultV,
>
    decreases entries.len(),
{
    if entries.len() == 0 {
        Seq::empty()
    } else {
        let rest = spec_format_entries(entries.drop_first(), g);
        if spec_itinerary_wf(entries[0].1, g) {
            seq![spec_formatted(entries[0].1, g)] + rest
        } else {
            rest
        }
    }
}

/// What the formatter produces for a result graph.
pub open spec fn spec_format(g: FightResult) -> Seq<FormattedResultV> {
    spec_format_entries(g.itineraries@, g)
}

/// Collects the surviving prices of an itinerary's pricing options.
#[verifier::loop_isolation(false)]
fn collect_prices(options: &Vec<PriceOption>) -> (r: Vec<u64>)
    ensures
        r@ == spec_prices(options@),
{
    let mut r: Vec<u64> = Vec::new();
    let mut i: usize = 0;
    proof {
        assert(options@.skip(0) =~= options@);
        assert(r@ + spec_prices(options@) =~= spec_prices(options@));
    }
    while i < options.len()
        invariant
            0 <= i <= options@.len(),
            spec_prices(options@) == r@ + spec_prices(options@.skip(i as int)),
        decreases options@.len() - i,
    {
        proof {
            assert(options@.skip(i as int)[0] == options@[i as int]);
            assert(options@.skip(i as int).drop_first() =~= options@.skip(i as int + 1));
        }
        let ghost r0 = r@;
        match parse_amount_micros(options[i].price.amount.as_str()) {
            Some(v) => {
                r.push(v);
                proof {
                    assert(r@ =~= r0.push(v));
                    assert(r0 + (seq![v] + spec_prices(options@.skip(i as int + 1))) =~= r@
                        + spec_prices(options@.skip(i as int + 1)));
                }
            },
            None => {},
        }
        i = i + 1;
    }
    proof {
        assert(options@.skip(options@.len() as int) =~= Seq::<PriceOption>::empty());
        assert(r@ + Seq::<u64>::empty() =~= r@);
    }
    r
}

/// The display code for one segment reference.
fn segment_code(id: &String, g: &FightResult) -> (r: String)
    ensures
        r@ == spec_segment_code(*id, *g),
{
    let code = match assoc_get(&g.segments, id) {
        None => id.clone(),
        Some(seg) => match assoc_get(&g.places, &seg.destination_place_id) {
            Some(p) => p.iata.clone(),
            None => seg.destination_place_id.clone(),
        },
    };
    let pre: String = "...".to_owned();
    pre.concat(code.as_str())
}

/// The display codes for a leg's segment references.
#[verifier::loop_isolation(false)]
fn segment_codes(ids: &Vec<String>, g: &FightResult) -> (r: Vec<String>)
    ensures
        r@.map_values(|s: String| s@) == ids@.map_values(|id: String| spec_segment_code(id, *g)),
{
    let mut r: Vec<String> = Vec::new();
    let mut i: usize = 0;
    while i < ids.len()
        invariant
            0 <= i <= ids@.len(),
            r@.map_values(|s: String| s@) == ids@.take(i as int).map_values(
                |id: String| spec_segment_code(id, *g),
            ),
        decreases ids@.len() - i,
    {
        let ghost r0 = r@;
        let code = segment_code(&ids[i], g);
        r.push(code);
        proof {
            assert(r@ =~= r0.push(code));
            assert(r@.map_values(|s: String| s@) =~= r0.map_values(|s: String| s@).push(code@));
            assert(ids@.take(i as int + 1).map_values(|id: String| spec_segment_code(id, *g))
                =~= ids@.take(i as int).map_values(|id: String| spec_segment_code(id, *g)).push(
                spec_segment_code(ids@[i as int], *g),
            ));
        }
        i = i + 1;
    }
    proof {
        assert(ids@.take(ids@.len() as int) =~= ids@);
    }
    r
}

/// The carrier name a leg is shown under, or nothing when the leg's
/// displayed carrier does not resolve.
fn carrier_name_of(leg: &Leg, g: &FightResult) -> (r: Option<String>)
    ensures
        (r is Some) <==> spec_leg_wf(*leg, *g),
        r matches Some(n) ==> n@ == spec_carrier_name(*leg, *g),
{
    if leg.marketing_carrier_ids.len() > 0 {
        match assoc_get(&g.carriers, &leg.marketing_carrier_ids[0]) {
            Some(c) => Some(c.name.clone()),
            None => None,
        }
    } else if leg.operating_carrier_ids.len() > 0 {
        match assoc_get(&g.carriers, &leg.operating_carrier_ids[0]) {
            Some(c) => Some(c.name.clone()),
            None => None,
        }
    } else {
        Some("Unknown carrier name".to_owned())
    }
}

/// The display rows for an itinerary's legs, or nothing when a leg or its
/// carrier does not resolve.
#[verifier::loop_isolation(false)]
fn leg_details(leg_ids: &Vec<String>, g: &FightResult) -> (r: Option<Vec<Details>>)
    ensures
        (r is Some) <==> spec_legs_wf(leg_ids@, *g),
        r matches Some(v) ==> v@.map_values(|d: Details| d@) == leg_ids@.map_values(
            |id: String| spec_detail_of_id(id, *g),
        ),
{
    let mut out: Vec<Details> = Vec::new();
    let mut i: usize = 0;
    while i < leg_ids.len()
        invariant
            0 <= i <= leg_ids@.len(),
            forall|k: int| 0 <= k < i ==> spec_leg_found_wf(#[trigger] leg_ids@[k], *g),
            out@.map_values(|d: Details| d@) == leg_ids@.take(i as int).map_values(
                |id: String| spec_detail_of_id(id, *g),
            ),
        decreases leg_ids@.len() - i,
    {
        let leg = match assoc_get(&g.legs, &leg_ids[i]) {
            Some(leg) => leg,
            None => {
                proof {
                    assert(!spec_leg_found_wf(leg_ids@[i as int], *g));
                }
                return None;
            },
        };
        let name = match carrier_name_of(leg, g) {
            Some(n) => n,
            None => {
                proof {
                    assert(!spec_leg_found_wf(leg_ids@[i as int], *g));
                }
                return None;
            },
        };
        let segments = segment_codes(&leg.segment_ids, g);
        let detail = Details {
            departure_date: leg.departure_date_time,
            arrival_date: leg.arrival_date_time,
            stop_count: leg.stop_count,
            segments,
            carrier_name: name,
        };
        let ghost out0 = out@;
        proof {
            assert(detail@ =~= spec_detail_of_id(leg_ids@[i as int], *g));
        }
        out.push(detail);
        proof {
            assert(out@ =~= out0.push(detail));
            assert(out@.map_values(|d: Details| d@) =~= out0.map_values(|d: Details| d@).push(
                detail@,
            ));
            assert(leg_ids@.take(i as int + 1).map_values(|id: String| spec_detail_of_id(id, *g))
                =~= leg_ids@.take(i as int).map_values(|id: String| spec_detail_of_id(id, *g)).push(
                spec_detail_of_id(leg_ids@[i as int], *g),
            ));
        }
        i = i + 1;
    }
    proof {
        assert(leg_ids@.take(leg_ids@.len() as int) =~= leg_ids@);
    }
    Some(out)
}

/// Formats one itinerary, or nothing when its references dangle.
fn format_one(it: &Itinerary, g: &FightResult) -> (r: Option<FormattedResult>)
    ensures
        (r is Some) <==> spec_itinerary_wf(*it, *g),
        r matches Some(f) ==> f@ == spec_formatted(*it, *g),
{
    match leg_details(&it.leg_ids, g) {
        None => None,
        Some(details) => {
            let prices = collect_prices(&it.pricing_options);
            let f = FormattedResult { price_options: prices, details };
            proof {
                assert(f@ =~= spec_formatted(*it, *g));
            }
            Some(f)
        },
    }
}

impl FightResult {
    /// Flattens the result graph into one displayable record per
    /// itinerary, in the graph's entry order, skipping itineraries whose
    /// leg or carrier references dangle.
    #[verifier::loop_isolation(false)]
    pub fn format(&self) -> (r: Vec<FormattedResult>)
        ensures
            r@.map_values(|f: FormattedResult| f@) == spec_format(*self),
    {
        let mut r: Vec<FormattedResult> = Vec::new();
        let mut i: usize = 0;
        proof {
            assert(self.itineraries@.skip(0) =~= self.itineraries@);
            assert(r@.map_values(|f: FormattedResult| f@) + spec_format(*self) =~= spec_format(
                *self,
            ));
        }
        while i < self.itineraries.len()
            invariant
                0 <= i <= self.itineraries@.len(),
                spec_format(*self) == r@.map_values(|f: FormattedResult| f@)
                    + spec_format_entries(self.itineraries@.skip(i as int), *self),
            decreases self.itineraries@.len() - i,
        {
            proof {
                assert(self.itineraries@.skip(i as int)[0] == self.itineraries@[i as int]);
                assert(self.itineraries@.skip(i as int).drop_first() =~= self.itineraries@.skip(
                    i as int + 1,
                ));
            }
            let ghost r0 = r@;
            match format_one(&self.itineraries[i].1, self) {
                Some(f) => {
                    r.push(f);
                    proof {
                        assert(r@ =~= r0.push(f));
                        assert(r@.map_values(|f2: FormattedResult| f2@) =~= r0.map_values(
                            |f2: FormattedResult| f2@,
                        ).push(f@));
                        assert(r0.map_values(|f2: FormattedResult| f2@) + (seq![f@]
                            + spec_format_entries(self.itineraries@.skip(i as int + 1), *self))
                            =~= r@.map_values(|f2: FormattedResult| f2@) + spec_format_entries(
                            self.itineraries@.skip(i as int + 1),
                            *self,
                        ));
                    }
                },
                None => {},
            }
            i = i + 1;
        }
        proof {
            assert(self.itineraries@.skip(self.itineraries@.len() as int) =~= Seq::<
                (String, Itinerary),
            >::empty());
            assert(r@.map_values(|f: FormattedResult| f@) + Seq::<FormattedResultV>::empty()
                =~= r@.map_values(|f: FormattedResult| f@));
        }
        r
    }
}

/// Ten to the `k`th power, for `k` up to six.
fn pow10_u64(k: u64) -> (r: u64)
    requires
        k <= 6,
    ensures
        r == spec_pow10(k as int),
{
    proof {
        lemma_pow10_six();
    }
    match k {
        0 => 1,
        1 => 10,
        2 => 100,
        3 => 1000,
        4 => 10000,
        5 => 100000,
        _ => 1000000,
    }
}

/// The character for the decimal digit `d`.
pub open spec fn spec_digit_char(d: int) -> char {
    if d == 0 {
        '0'
    } else if d == 1 {
        '1'
    } else if d == 2 {
        '2'
    } else if d == 3 {
        '3'
    } else if d == 4 {
        '4'
    } else if d == 5 {
        '5'
    } else if d == 6 {
        '6'
    } else if d == 7 {
        '7'
    } else if d == 8 {
        '8'
    } else {
        '9'
    }
}

/// The decimal rendering of the nonnegative number `n`, without leading
/// zeros.
pub open spec fn spec_dec_nat(n: int) -> Seq<char>
    decreases n,
{
    if n < 10 {
        seq![spec_digit_char(n)]
    } else {
        spec_dec_nat(n / 10) + seq![spec_digit_char(n % 10)]
    }
}

/// The decimal rendering of `n` padded with zeros on the left to exactly
/// `width` digits (the low `width` digits of `n`).
pub open spec fn spec_padded_dec(n: int, width: int) -> Seq<char>
    decreases width,
{
    if width <= 0 {
        Seq::empty()
    } else {
        spec_padded_dec(n / 10, width - 1) + seq![spec_digit_char(n % 10)]
    }
}

/// `s` with trailing `'0'` characters removed.
pub open spec fn spec_trim_zeros(s: Seq<char>) -> Seq<char>
    decreases s.len(),
{
    if s.len() > 0 && s.last() == '0' {
        spec_trim_zeros(s.drop_last())
    } else {
        s
    }
}

/// `n` rendered to two digits, zero-padded.
pub open spec fn spec_pad2(n: int) -> Seq<char> {
    if n < 10 {
        seq!['0'] + spec_dec_nat(n)
    } else {
        spec_dec_nat(n)
    }
}

/// A date-time rendered as `YYYY-MM-DD HH:MM:SS`, with two-digit month,
/// day, hour, minute and second.
pub open spec fn spec_render_dt(dt: ResponseDateTime) -> Seq<char> {
    spec_dec_nat(dt.year as int) + "-"@ + spec_pad2(dt.month as int) + "-"@ + spec_pad2(
        dt.day as int,
    ) + " "@ + spec_pad2(dt.hour as int) + ":"@ + spec_pad2(dt.minute as int) + ":"@ + spec_pad2(
        dt.second as int,
    )
}

/// The first `k` segment codes joined with no separator.
pub open spec fn spec_concat_segments(segs: Seq<Seq<char>>, k: int) -> Seq<char>
    decreases k,
{
    if k <= 0 {
        Seq::empty()
    } else {
        spec_concat_segments(segs, k - 1) + segs[k - 1]
    }
}

/// A price in micro-units displayed in the provider's display unit: the
/// amount divided by one thousand, rendered exactly with its trailing
/// zeros trimmed.
pub open spec fn spec_price_display(micros: u64) -> Seq<char> {
    let q = micros as int / 1000000000;
    let rem = micros as int % 1000000000;
    if rem == 0 {
        spec_dec_nat(q)
    } else {
        spec_dec_nat(q) + "."@ + spec_trim_zeros(spec_padded_dec(rem, 9))
    }
}

/// One leg's display line: the carrier, departure and arrival, and for a
/// leg with stops the stop count and the joined segment trail.
pub open spec fn spec_render_detail(d: DetailsV) -> Seq<char> {
    let head = "Carrier("@ + d.carrier_name + "):\t"@ + spec_render_dt(d.departure_date) + " -> "@
        + spec_render_dt(d.arrival_date);
    if d.stop_count > 0 {
        let k = if d.stop_count as int <= d.segments.len() as int {
            d.stop_count as int
        } else {
            d.segments.len() as int
        };
        head + "\t(stop count: "@ + spec_dec_nat(d.stop_count as int) + ")\t("@
            + spec_concat_segments(d.segments, k) + ")"@
    } else {
        head
    }
}

/// The display lines for a sequence of legs, each ended with a newline.
pub open spec fn spec_render_details(ds: Seq<DetailsV>) -> Seq<char>
    decreases ds.len(),
{
    if ds.len() == 0 {
        Seq::empty()
    } else {
        spec_render_detail(ds[0]) + "\n"@ + spec_render_details(ds.drop_first())
    }
}

/// The full display text of one formatted itinerary: one line per leg,
/// then a price line showing the first surviving price, if any.
pub open spec fn spec_render(f: FormattedResultV) -> Seq<char> {
    spec_render_details(f.details) + if f.price_options.len() > 0 {
        "Price: "@ + spec_price_display(f.price_options[0]) + "\n"@
    } else {
        Seq::empty()
    }
}

/// The one-character string for the decimal digit `d`.
fn digit_str(d: u64) -> (r: &'static str)
    requires
        d < 10,
    ensures
        r@ == seq![spec_digit_char(d as int)],
{
    proof {
        reveal_strlit("0");
        reveal_strlit("1");
        reveal_strlit("2");
        reveal_strlit("3");
        reveal_strlit("4");
        reveal_strlit("5");
        reveal_strlit("6");
        reveal_strlit("7");
        reveal_strlit("8");
        reveal_strlit("9");
    }
    match d {
        0 => "0",
        1 => "1",
        2 => "2",
        3 => "3",
        4 => "4",
        5 => "5",
        6 => "6",
        7 => "7",
        8 => "8",
        _ => "9",
    }
}

/// Renders `n` in decimal.
fn dec_u64(n: u64) -> (r: String)
    ensures
        r@ == spec_dec_nat(n as int),
    decreases n,
{
    if n < 10 {
        digit_str(n).to_owned()
    } else {
        let head = dec_u64(n / 10);
        head.concat(digit_str(n % 10))
    }
}

/// Renders the low `width` digits of `n`, zero-padded.
fn padded_dec(n: u64, width: u64) -> (r: String)
    ensures
        r@ == spec_padded_dec(n as int, width as int),
    decreases width,
{
    if width == 0 {
        String::new()
    } else {
        let head = padded_dec(n / 10, width - 1);
        head.concat(digit_str(n % 10))
    }
}

/// Renders `n` to two digits, zero-padded.
fn pad2(n: u64) -> (r: String)
    ensures
        r@ == spec_pad2(n as int),
{
    if n < 10 {
        let z: String = "0".to_owned();
        proof {
            reveal_strlit("0");
            assert("0"@ =~= seq!['0']);
        }
        z.concat(dec_u64(n).as_str())
    } else {
        dec_u64(n)
    }
}

/// Renders a date-time as `YYYY-MM-DD HH:MM:SS`.
fn render_dt(dt: &ResponseDateTime) -> (r: String)
    ensures
        r@ == spec_render_dt(*dt),
{
    let mut s = dec_u64(dt.year as u64);
    s.append("-");
    let m = pad2(dt.month as u64);
    s.append(m.as_str());
    s.append("-");
    let d = pad2(dt.day as u64);
    s.append(d.as_str());
    s.append(" ");
    let h = pad2(dt.hour as u64);
    s.append(h.as_str());
    s.append(":");
    let mi = pad2(dt.minute as u64);
    s.append(mi.as_str());
    s.append(":");
    let se = pad2(dt.second as u64);
    s.append(se.as_str());
    s
}

/// Renders a price in micro-units as the display amount.
fn price_display(micros: u64) -> (r: String)
    ensures
        r@ == spec_price_display(micros),
{
    let q = micros / 1000000000;
    let rem = micros % 1000000000;
    if rem == 0 {
        dec_u64(q)
    } else {
        let mut s = dec_u64(q);
        s.append(".");
        let padded = padded_dec(rem, 9);
        let ghost pseq = padded@;
        let plen = padded.as_str().unicode_len();
        let mut end: usize = plen;
        proof {
            assert(pseq.take(plen as int) =~= pseq);
        }
        while end > 0 && padded.as_str().get_char(end - 1) == '0'
            invariant
                0 <= end <= plen,
                plen == pseq.len(),
                pseq == padded@,
                spec_trim_zeros(pseq) == spec_trim_zeros(pseq.take(end as int)),
            decreases end,
        {
            proof {
                assert(pseq.take(end as int).last() == pseq[end - 1]);
                assert(pseq.take(end as int).drop_last() =~= pseq.take(end as int - 1));
            }
            end = end - 1;
        }
        proof {
            if end > 0 {
                assert(pseq.take(end as int).last() == pseq[end - 1]);
            }
            assert(spec_trim_zeros(pseq.take(end as int)) == pseq.take(end as int));
            assert(pseq.take(plen as int) =~= pseq);
            assert(pseq.take(end as int) =~= pseq.subrange(0, end as int));
        }
        let trimmed = padded.as_str().substring_char(0, end);
        s.append(trimmed);
        s
    }
}

/// Joins the first `k` of the leg's segment codes.
#[verifier::loop_isolation(false)]
fn concat_segments(segs: &Vec<String>, k: usize) -> (r: String)
    requires
        k <= segs@.len(),
    ensures
        r@ == spec_concat_segments(segs@.map_values(|s: String| s@), k as int),
{
    let ghost sv = segs@.map_values(|s: String| s@);
    let mut r = String::new();
    let mut j: usize = 0;
    while j < k
        invariant
            0 <= j <= k,
            r@ == spec_concat_segments(sv, j as int),
        decreases k - j,
    {
        r.append(segs[j].as_str());
        j = j + 1;
    }
    r
}

impl Details {
    /// This leg's display line, without its newline.
    pub fn render(&self) -> (r: String)
        ensures
            r@ == spec_render_detail(self@),
    {
        let mut s: String = "Carrier(".to_owned();
        s.append(self.carrier_name.as_str());
        s.append("):\t");
        let dep = render_dt(&self.departure_date);
        s.append(dep.as_str());
        s.append(" -> ");
        let arr = render_dt(&self.arrival_date);
        s.append(arr.as_str());
        if self.stop_count > 0 {
            s.append("\t(stop count: ");
            let n = dec_u64(self.stop_count as u64);
            s.append(n.as_str());
            s.append(")\t(");
            let k = if (self.stop_count as usize) <= self.segments.len() {
                self.stop_count as usize
            } else {
                self.segments.len()
            };
            let trail = concat_segments(&self.segments, k);
            s.append(trail.as_str());
            s.append(")");
        }
        s
    }
}

impl FormattedResult {
    /// The full display text of this itinerary: one line per leg, then a
    /// `Price:` line showing the first surviving price divided by one
    /// thousand, if any price survived.
    #[verifier::loop_isolation(false)]
    pub fn render(&self) -> (r: String)
        ensures
            r@ == spec_render(self@),
    {
        let ghost dv = self.details@.map_values(|d: Details| d@);
        let mut s = String::new();
        let mut i: usize = 0;
        proof {
            assert(dv.skip(0) =~= dv);
            assert(s@ + spec_render_details(dv) =~= spec_render_details(dv));
        }
        while i < self.details.len()
            invariant
                0 <= i <= self.details@.len(),
                spec_render_details(dv) == s@ + spec_render_details(dv.skip(i as int)),
            decreases self.details@.len() - i,
        {
            proof {
                assert(dv.skip(i as int)[0] == dv[i as int]);
                assert(dv.skip(i as int).drop_first() =~= dv.skip(i as int + 1));
            }
            let ghost s0 = s@;
            let line = self.details[i].render();
            s.append(line.as_str());
            s.append("\n");
            proof {
                assert(s0 + (spec_render_detail(dv[i as int]) + "\n"@ + spec_render_details(
                    dv.skip(i as int + 1),
                )) =~= s@ + spec_render_details(dv.skip(i as int + 1)));
            }
            i = i + 1;
        }
        proof {
            assert(dv.skip(dv.len() as int) =~= Seq::<DetailsV>::empty());
            assert(s@ + Seq::<char>::empty() =~= s@);
        }
        if self.price_options.len() > 0 {
            s.append("Price: ");
            let p = price_display(self.price_options[0]);
            s.append(p.as_str());
            s.append("\n");
        }
        s
    }
}

/// Whether `f` has at least one surviving price: the ordering below is
/// only defined for such itineraries.
pub open spec fn spec_has_price(f: FormattedResult) -> bool {
    f.price_options@.len() > 0
}

/// The price an itinerary is ordered by: its first surviving price.
pub open spec fn spec_first_price(f: FormattedResult) -> u64
    recommends
        spec_has_price(f),
{
    f.price_options@[0]
}

/// The order the final output is sorted by: `a` before or with `b` when
/// `a`'s first price is at most `b`'s.
pub open spec fn spec_price_le(a: FormattedResult, b: FormattedResult) -> bool {
    spec_first_price(a) <= spec_first_price(b)
}

/// Law: the price order is reflexive.
pub proof fn lemma_price_order_reflexive(a: FormattedResult)
    requires
        spec_has_price(a),
    ensures
        spec_price_le(a, a),
{
}

/// Law: the price order is antisymmetric with respect to the ordering
/// key: two itineraries ordered both ways have equal first prices.
pub proof fn lemma_price_order_antisymmetric(a: FormattedResult, b: FormattedResult)
    requires
        spec_has_price(a),
        spec_has_price(b),
        spec_price_le(a, b),
        spec_price_le(b, a),
    ensures
        spec_first_price(a) == spec_first_price(b),
{
}

/// Law: the price order is transitive.
pub proof fn lemma_price_order_transitive(a: FormattedResult, b: FormattedResult, c: FormattedResult)
    requires
        spec_has_price(a),
        spec_has_price(b),
        spec_has_price(c),
        spec_price_le(a, b),
        spec_price_le(b, c),
    ensures
        spec_price_le(a, c),
{
}

/// Law: the price order is total: any two priced itineraries compare one
/// way or the other.
pub proof fn lemma_price_order_total(a: FormattedResult, b: FormattedResult)
    requires
        spec_has_price(a),
        spec_has_price(b),
    ensures
        spec_price_le(a, b) || spec_price_le(b, a),
{
}

/// Law: formatting is a pure function of the result graph: equal graphs
/// format to equal outputs.  Together with `format`'s contract, which pins
/// its result to `spec_format`, this gives the formatter's idempotence:
/// two calls on the same input return equal output.
pub proof fn lemma_format_deterministic(g1: FightResult, g2: FightResult)
    requires
        g1 == g2,
    ensures
        spec_format(g1) == spec_format(g2),
{
}

/// Whether `s` is sorted by descending first price.
pub open spec fn spec_sorted_desc(s: Seq<FormattedResult>) -> bool {
    forall|i: int, j: int|
        0 <= i <= j < s.len() ==> spec_first_price(#[trigger] s[j]) <= spec_first_price(
            #[trigger] s[i],
        )
}

/// Whether every element of `v` has at least one surviving price.
pub open spec fn spec_all_have_price(s: Seq<FormattedResult>) -> bool {
    forall|i: int| 0 <= i < s.len() ==> spec_has_price(#[trigger] s[i])
}

/// Whether every itinerary in `v` has at least one surviving price, which
/// the sort below requires.
pub fn all_have_price(v: &Vec<FormattedResult>) -> (r: bool)
    ensures
        r == spec_all_have_price(v@),
{
    let mut i: usize = 0;
    while i < v.len()
        invariant
            0 <= i <= v@.len(),
            forall|k: int| 0 <= k < i ==> spec_has_price(#[trigger] v@[k]),
        decreases v@.len() - i,
    {
        if v[i].price_options.len() == 0 {
            return false;
        }
        i = i + 1;
    }
    true
}

/// Sorts formatted itineraries by descending first price, keeping exactly
/// the given itineraries.  The order of an itinerary without a price is
/// undefined, so every input must carry one.
#[verifier::loop_isolation(false)]
pub fn sort_formatted(v: Vec<FormattedResult>) -> (r: Vec<FormattedResult>)
    requires
        spec_all_have_price(v@),
    ensures
        r@.len() == v@.len(),
        spec_sorted_desc(r@),
        spec_all_have_price(r@),
        r@.to_multiset() == v@.to_multiset(),
{
    broadcast use vstd::seq_lib::group_to_multiset_ensures;
    broadcast use vstd::seq_lib::to_multiset_insert;

    let ghost orig = v@;
    let mut rest = v;
    let mut r: Vec<FormattedResult> = Vec::new();
    while rest.len() > 0
        invariant
            spec_sorted_desc(r@),
            spec_all_have_price(r@),
            spec_all_have_price(rest@),
            r@.to_multiset().add(rest@.to_multiset()) == orig.to_multiset(),
            r@.len() + rest@.len() == orig.len(),
        decreases rest@.len(),
    {
        let ghost rest0 = rest@;
        let x = rest.remove(0);
        proof {
            assert(rest0[0] == x);
            assert(rest@ == rest0.remove(0));
            assert(rest0.to_multiset().contains(x));
        }
        let mut pos: usize = 0;
        while pos < r.len() && r[pos].price_options[0] >= x.price_options[0]
            invariant
                0 <= pos <= r@.len(),
                forall|k: int|
                    0 <= k < pos ==> spec_first_price(#[trigger] r@[k]) >= spec_first_price(x),
            decreases r@.len() - pos,
        {
            pos = pos + 1;
        }
        let ghost r0 = r@;
        r.insert(pos, x);
        proof {
            assert(r@ == r0.insert(pos as int, x));
            assert forall|i: int, j: int| 0 <= i <= j < r@.len() implies spec_first_price(
                #[trigger] r@[j],
            ) <= spec_first_price(#[trigger] r@[i]) by {
                if i < pos && j < pos {
                    assert(r@[i] == r0[i] && r@[j] == r0[j]);
                } else if i < pos && j == pos {
                    assert(r@[i] == r0[i] && r@[j] == x);
                } else if i < pos && j > pos {
                    assert(r@[i] == r0[i] && r@[j] == r0[j - 1]);
                } else if i == pos && j == pos {
                } else if i == pos && j > pos {
                    assert(r@[i] == x && r@[j] == r0[j - 1]);
                    assert(pos < r0.len() + 1);
                    assert(spec_first_price(r0[pos as int]) < spec_first_price(x));
                    assert(spec_first_price(r0[j - 1]) <= spec_first_price(r0[pos as int]));
                } else {
                    assert(r@[i] == r0[i - 1] && r@[j] == r0[j - 1]);
                }
            }
            assert forall|k: int| 0 <= k < r@.len() implies spec_has_price(#[trigger] r@[k]) by {
                if k < pos {
                    assert(r@[k] == r0[k]);
                } else if k == pos {
                    assert(r@[k] == x);
                } else {
                    assert(r@[k] == r0[k - 1]);
                }
            }
            assert(r@.to_multiset() == r0.to_multiset().insert(x));
            assert(rest@.to_multiset() == rest0.to_multiset().remove(x));
            assert(r@.to_multiset().add(rest@.to_multiset()) =~= orig.to_multiset());
        }
    }
    proof {
        assert(rest@.to_multiset() =~= Multiset::<FormattedResult>::empty());
        assert(r@.to_multiset().add(Multiset::<FormattedResult>::empty()) =~= r@.to_multiset());
    }
    r
}

} // verus!
