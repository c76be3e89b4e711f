//! Energy figures from paired state-change messages.
//!
//! Every message of a light opens an interval that the next event of the same
//! entity closes. The interval's length times the draw of the reported state
//! is the energy that the location has used. Draws are given in milliwatts and
//! times in milliseconds, so energies are sums of microjoules; the report
//! states microwatt-hours.

use crate::error::Error;
use crate::event::{chronological, views, Action, ActionView, Event, EventList, EventView};
use crate::identifier::{
    category_of, category_of_key, is_occupancy, is_occupancy_id, light_state, light_state_of,
    location_key, location_key_of, state_token, state_token_of, Category, LightState,
};
use crate::text::{chars_of, same_chars, string_of};
use vstd::prelude::*;

verus! {

/// The microjoules of one microwatt-hour.
pub const MICROJOULES_PER_MICROWATT_HOUR: u128 = 3600;

/// The days that a yearly figure is spread over.
pub const DAYS_PER_YEAR: u128 = 365;

/// The microwatt-hours of one milliwatt-hour.
pub const MICRO_PER_MILLI: u128 = 1000;

/// The power-draw profile of a building.
#[derive(Debug, Clone, PartialEq, Eq)]
pub struct Evaluation {
    /// The yearly draw of one device of each of the two sensing classes, in
    /// milliwatt-hours.
    pub energy_consumption_sensor_type: Vec<u32>,
    /// The draw of a light in milliwatts. The first row is for sub-rooms, the
    /// second for rooms; the columns are the states on, dimmed and off.
    pub energy_consumption_light_in_different_states_of_different_rooms: Vec<Vec<u32>>,
}

/// The mathematical value of an [`Evaluation`].
pub struct ProfileView {
    pub baseline: Seq<int>,
    pub draw: Seq<Seq<int>>,
}

/// The row of the draw table that holds a category.
pub open spec fn category_row(category: Category) -> int {
    match category {
        Category::SubRoom => 0,
        Category::Room => 1,
    }
}

/// The column of the draw table that holds a state.
pub open spec fn state_column(state: LightState) -> int {
    match state {
        LightState::On => 0,
        LightState::Dim => 1,
        LightState::Off => 2,
    }
}

/// The draw in milliwatts of a light of the given category in the given state.
pub open spec fn draw(profile: ProfileView, category: Category, state: LightState) -> int {
    profile.draw[category_row(category)][state_column(state)]
}

impl View for Evaluation {
    type V = ProfileView;

    open spec fn view(&self) -> ProfileView {
        ProfileView {
            baseline: self.energy_consumption_sensor_type@.map_values(|x: u32| x as int),
            draw: self.energy_consumption_light_in_different_states_of_different_rooms@.map_values(
                |row: Vec<u32>| row@.map_values(|x: u32| x as int),
            ),
        }
    }
}

/// The event at `j` is the first one behind the event at `i` that carries the
/// same identifier.
pub open spec fn is_successor(events: Seq<EventView>, i: int, j: int) -> bool {
    &&& 0 <= i < j < events.len()
    &&& events[j].entity_id == events[i].entity_id
    &&& forall|k: int| i < k < j ==> events[k].entity_id != events[i].entity_id
}

/// The position of the event that closes the interval which the event at `i`
/// opens, if there is one.
pub open spec fn successor(events: Seq<EventView>, i: int) -> Option<int> {
    if exists|j: int| is_successor(events, i, j) {
        Some(choose|j: int| is_successor(events, i, j))
    } else {
        None
    }
}

/// A closed interval of one light.
pub struct Interval {
    /// The category of the light's location.
    pub category: Category,
    /// The key of the light's location.
    pub key: Seq<char>,
    /// The state of the light during the interval, where the payload names one.
    pub state: Option<LightState>,
    /// The length of the interval in milliseconds.
    pub duration: int,
}

/// The interval that the event at `i` opens. Only a message does so, of a
/// sensor that is not of the presence-only type, with a location in its
/// identifier, a state token in its payload and a later event of the same
/// identifier.
pub open spec fn interval(events: Seq<EventView>, i: int) -> Option<Interval> {
    match events[i].action {
        ActionView::Message(payload) => {
            if is_occupancy_id(events[i].entity_id) {
                None
            } else {
                match (
                    location_key(events[i].entity_id),
                    state_token(payload),
                    successor(events, i),
                ) {
                    (Some(key), Some(token), Some(j)) => Some(
                        Interval {
                            category: category_of(key),
                            key,
                            state: light_state(token),
                            duration: events[j].timestamp - events[i].timestamp,
                        },
                    ),
                    _ => None,
                }
            }
        },
        _ => None,
    }
}

/// The event at `i` is a message of a light whose identifier names no
/// location.
pub open spec fn malformed_at(events: Seq<EventView>, i: int) -> bool {
    &&& 0 <= i < events.len()
    &&& events[i].action is Message
    &&& !is_occupancy_id(events[i].entity_id)
    &&& location_key(events[i].entity_id) is None
}

/// The event at `p` is the first with a malformed identifier.
pub open spec fn is_first_malformed(events: Seq<EventView>, p: int) -> bool {
    &&& malformed_at(events, p)
    &&& forall|k: int| 0 <= k < p ==> !malformed_at(events, k)
}

/// The energy of an interval in microjoules: its length times the draw of its
/// state, and nothing where the payload names no state.
pub open spec fn energy_of(profile: ProfileView, interval: Interval) -> int {
    match interval.state {
        Some(state) => interval.duration * draw(profile, interval.category, state),
        None => 0,
    }
}

/// What the event at `i` adds to the total of `category`, in microjoules.
pub open spec fn share(events: Seq<EventView>, profile: ProfileView, category: Category, i: int) -> int {
    match interval(events, i) {
        Some(iv) => if iv.category == category {
            energy_of(profile, iv)
        } else {
            0
        },
        None => 0,
    }
}

/// The energy in microjoules that the first `n` events add to `category`.
pub open spec fn category_total(
    events: Seq<EventView>,
    profile: ProfileView,
    category: Category,
    n: int,
) -> int
    decreases n,
{
    if n <= 0 {
        0
    } else {
        category_total(events, profile, category, n - 1) + share(events, profile, category, n - 1)
    }
}

/// The energy of one location.
pub struct BucketView {
    pub key: Seq<char>,
    pub energy: int,
}

/// `k` is the first position of `buckets` that holds `key`.
pub open spec fn is_bucket_of(buckets: Seq<BucketView>, key: Seq<char>, k: int) -> bool {
    &&& 0 <= k < buckets.len()
    &&& buckets[k].key == key
    &&& forall|m: int| 0 <= m < k ==> buckets[m].key != key
}

/// The buckets once `energy` is credited to the location `key`: added to the
/// first bucket of that key, or put into a new last bucket where none has it.
pub open spec fn credited(buckets: Seq<BucketView>, key: Seq<char>, energy: int) -> Seq<
    BucketView,
> {
    if exists|k: int| is_bucket_of(buckets, key, k) {
        let k = choose|k: int| is_bucket_of(buckets, key, k);
        buckets.update(k, BucketView { key, energy: buckets[k].energy + energy })
    } else {
        buckets.push(BucketView { key, energy })
    }
}

/// The buckets of `category` after the first `n` events, in the order in
/// which their locations first closed an interval.
pub open spec fn buckets_of(
    events: Seq<EventView>,
    profile: ProfileView,
    category: Category,
    n: int,
) -> Seq<BucketView>
    decreases n,
{
    if n <= 0 {
        Seq::empty()
    } else {
        let before = buckets_of(events, profile, category, n - 1);
        match interval(events, n - 1) {
            Some(iv) => if iv.category == category {
                credited(before, iv.key, energy_of(profile, iv))
            } else {
                before
            },
            None => before,
        }
    }
}

/// The sums that the scan of a timeline arrives at, in microjoules.
pub struct TallyView {
    pub room_total: int,
    pub sub_room_total: int,
    pub rooms: Seq<BucketView>,
    pub sub_rooms: Seq<BucketView>,
}

/// The sums over the first `n` events of a timeline.
pub open spec fn tally_of(events: Seq<EventView>, profile: ProfileView, n: int) -> TallyView {
    TallyView {
        room_total: category_total(events, profile, Category::Room, n),
        sub_room_total: category_total(events, profile, Category::SubRoom, n),
        rooms: buckets_of(events, profile, Category::Room, n),
        sub_rooms: buckets_of(events, profile, Category::SubRoom, n),
    }
}

/// The energy that one location has used.
#[derive(Debug, Clone, PartialEq, Eq)]
pub struct Bucket {
    /// The key of the location.
    pub location: String,
    /// The energy, in the unit of the record that holds the bucket.
    pub energy: u128,
}

impl View for Bucket {
    type V = BucketView;

    open spec fn view(&self) -> BucketView {
        BucketView { key: self.location@, energy: self.energy as int }
    }
}

/// The values of a list of buckets.
pub open spec fn bucket_views(buckets: Seq<Bucket>) -> Seq<BucketView> {
    buckets.map_values(|b: Bucket| b@)
}

/// The sums that the scan of a timeline arrives at, in microjoules.
#[derive(Debug, Clone, PartialEq, Eq)]
pub struct Tally {
    /// The energy of all rooms.
    pub room_total: u128,
    /// The energy of all sub-rooms.
    pub sub_room_total: u128,
    /// The energy of each room.
    pub rooms: Vec<Bucket>,
    /// The energy of each sub-room.
    pub sub_rooms: Vec<Bucket>,
}

impl View for Tally {
    type V = TallyView;

    open spec fn view(&self) -> TallyView {
        TallyView {
            room_total: self.room_total as int,
            sub_room_total: self.sub_room_total as int,
            rooms: bucket_views(self.rooms@),
            sub_rooms: bucket_views(self.sub_rooms@),
        }
    }
}

/// The most that one interval can add: the longest interval at the highest
/// draw.
pub open spec fn share_limit() -> int {
    0xffff_fffe_0000_0001
}

/// The position of the first later event with the identifier of the event at
/// `i`.
pub fn find_successor(events: &Vec<Event>, i: usize) -> (r: Option<usize>)
    requires
        i < events.len(),
    ensures
        match r {
            Some(j) => is_successor(views(events@), i as int, j as int) && successor(
                views(events@),
                i as int,
            ) == Some(j as int),
            None => successor(views(events@), i as int) is None,
        },
{
    let ghost vs = views(events@);
    let mut j: usize = i + 1;
    while j < events.len()
        invariant
            i < j <= events.len(),
            vs == views(events@),
            forall|k: int| i < k < j ==> vs[k].entity_id != vs[i as int].entity_id,
        decreases events.len() - j,
    {
        if events[j].entity_id == events[i].entity_id {
            proof {
                assert(vs[j as int].entity_id == vs[i as int].entity_id);
                assert(is_successor(vs, i as int, j as int));
                let c = choose|c: int| is_successor(vs, i as int, c);
                if c < j {
                    assert(vs[c].entity_id != vs[i as int].entity_id);
                } else if j < c {
                    assert(vs[j as int].entity_id != vs[i as int].entity_id);
                }
            }
            return Some(j);
        }
        assert(vs[j as int].entity_id != vs[i as int].entity_id);
        j += 1;
    }
    None
}

/// Credits `energy` to the bucket of the location `key`. No bucket is above
/// `limit` before the call, and none is above `limit + energy` after it.
fn credit(buckets: &mut Vec<Bucket>, key: &Vec<char>, energy: u128, Ghost(limit): Ghost<int>)
    requires
        forall|k: int| 0 <= k < old(buckets).len() ==> (#[trigger] old(buckets)[k]).energy <= limit,
        0 <= limit,
        limit + energy <= u128::MAX,
    ensures
        bucket_views(final(buckets)@) == credited(
            bucket_views(old(buckets)@),
            key@,
            energy as int,
        ),
        forall|k: int|
            0 <= k < final(buckets).len() ==> (#[trigger] final(buckets)[k]).energy <= limit
                + energy,
{
    let ghost before = bucket_views(buckets@);
    let mut k: usize = 0;
    while k < buckets.len()
        invariant
            k <= buckets.len(),
            buckets@ == old(buckets)@,
            before == bucket_views(buckets@),
            forall|m: int| 0 <= m < k ==> before[m].key != key@,
            forall|m: int| 0 <= m < buckets.len() ==> (#[trigger] buckets[m]).energy <= limit,
            0 <= limit,
            limit + energy <= u128::MAX,
        decreases buckets.len() - k,
    {
        let held = chars_of(buckets[k].location.as_str());
        if same_chars(&held, key) {
            let sum: u128 = buckets[k].energy + energy;
            proof {
                assert(before[k as int].key == key@);
                assert(is_bucket_of(before, key@, k as int));
                let c = choose|c: int| is_bucket_of(before, key@, c);
                if c < k {
                    assert(before[c].key != key@);
                } else if k < c {
                    assert(before[k as int].key != key@);
                }
            }
            buckets.set(k, Bucket { location: string_of(key), energy: sum });
            assert(bucket_views(buckets@) =~= credited(before, key@, energy as int));
            return ;
        }
        assert(before[k as int].key != key@);
        k += 1;
    }
    buckets.push(Bucket { location: string_of(key), energy });
    assert(bucket_views(buckets@) =~= credited(before, key@, energy as int));
}

/// The energy that one closed interval adds to a location.
pub struct Credit {
    /// The category of the location.
    pub category: Category,
    /// The key of the location.
    pub location: Vec<char>,
    /// The energy in microjoules.
    pub energy: u128,
}

/// The figures of a report, in microwatt-hours.
pub struct ReportView {
    pub baseline_class_0: int,
    pub baseline_class_1: int,
    pub mean_room: Option<int>,
    pub mean_sub_room: Option<int>,
    pub rooms: Seq<BucketView>,
    pub sub_rooms: Seq<BucketView>,
}

/// The mean energy per location in microwatt-hours, of a total in
/// microjoules. Without a location there is no mean.
pub open spec fn mean_of(total: int, locations: int) -> Option<int> {
    if locations == 0 {
        None
    } else {
        Some(total / locations / (MICROJOULES_PER_MICROWATT_HOUR as int))
    }
}

/// The same buckets with their energy in microwatt-hours instead of
/// microjoules.
pub open spec fn in_microwatt_hours(buckets: Seq<BucketView>) -> Seq<BucketView> {
    buckets.map_values(
        |b: BucketView|
            BucketView { key: b.key, energy: b.energy / (MICROJOULES_PER_MICROWATT_HOUR as int) },
    )
}

/// The daily share in microwatt-hours of a yearly figure in milliwatt-hours,
/// for `devices` locations with `units` devices each.
pub open spec fn baseline_of(figure: int, units: int, devices: int) -> int {
    figure * (MICRO_PER_MILLI as int) * units * devices / (DAYS_PER_YEAR as int)
}

/// The report on the sums of a scan.
pub open spec fn report_of(tally: TallyView, profile: ProfileView) -> ReportView {
    let devices = (tally.sub_rooms.len() + tally.rooms.len()) as int;
    ReportView {
        baseline_class_0: baseline_of(profile.baseline[0], 1, devices),
        baseline_class_1: baseline_of(profile.baseline[1], 2, devices),
        mean_room: mean_of(tally.room_total, tally.rooms.len() as int),
        mean_sub_room: mean_of(tally.sub_room_total, tally.sub_rooms.len() as int),
        rooms: in_microwatt_hours(tally.rooms),
        sub_rooms: in_microwatt_hours(tally.sub_rooms),
    }
}

/// The report on a whole timeline.
pub open spec fn consumption_report(events: Seq<EventView>, profile: ProfileView) -> ReportView {
    report_of(tally_of(events, profile, events.len() as int), profile)
}

/// The energy figures of a timeline, in microwatt-hours.
#[derive(Debug, Clone, PartialEq, Eq)]
pub struct Report {
    /// The daily energy of the devices of the first sensing class.
    pub baseline_class_0: u128,
    /// The daily energy of the devices of the second sensing class, of which
    /// every location has two.
    pub baseline_class_1: u128,
    /// The mean energy of a room, where any room was seen.
    pub mean_room: Option<u128>,
    /// The mean energy of a sub-room, where any sub-room was seen.
    pub mean_sub_room: Option<u128>,
    /// The energy of each room.
    pub rooms: Vec<Bucket>,
    /// The energy of each sub-room.
    pub sub_rooms: Vec<Bucket>,
}

impl View for Report {
    type V = ReportView;

    open spec fn view(&self) -> ReportView {
        ReportView {
            baseline_class_0: self.baseline_class_0 as int,
            baseline_class_1: self.baseline_class_1 as int,
            mean_room: match self.mean_room {
                Some(m) => Some(m as int),
                None => None,
            },
            mean_sub_room: match self.mean_sub_room {
                Some(m) => Some(m as int),
                None => None,
            },
            rooms: bucket_views(self.rooms@),
            sub_rooms: bucket_views(self.sub_rooms@),
        }
    }
}

/// The mean energy per location in microwatt-hours.
pub fn mean(total: u128, locations: usize) -> (m: Option<u128>)
    ensures
        match m {
            Some(v) => mean_of(total as int, locations as int) == Some(v as int),
            None => mean_of(total as int, locations as int) is None,
        },
{
    if locations == 0 {
        None
    } else {
        Some(total / (locations as u128) / MICROJOULES_PER_MICROWATT_HOUR)
    }
}

/// The given buckets with their energy in microwatt-hours.
pub fn to_microwatt_hours(buckets: &Vec<Bucket>) -> (r: Vec<Bucket>)
    ensures
        bucket_views(r@) == in_microwatt_hours(bucket_views(buckets@)),
{
    let mut r: Vec<Bucket> = Vec::new();
    let mut k: usize = 0;
    while k < buckets.len()
        invariant
            k <= buckets.len(),
            r.len() == k,
            forall|m: int|
                0 <= m < k ==> (#[trigger] r[m])@ == in_microwatt_hours(
                    bucket_views(buckets@),
                )[m],
        decreases buckets.len() - k,
    {
        r.push(
            Bucket {
                location: buckets[k].location.clone(),
                energy: buckets[k].energy / MICROJOULES_PER_MICROWATT_HOUR,
            },
        );
        k += 1;
    }
    assert(bucket_views(r@) =~= in_microwatt_hours(bucket_views(buckets@)));
    r
}

/// The daily share in microwatt-hours of a yearly figure in milliwatt-hours.
pub fn baseline(figure: u32, units: u8, devices: u128) -> (r: u128)
    requires
        devices <= 0x2_0000_0000_0000_0000,
    ensures
        r == baseline_of(figure as int, units as int, devices as int),
{
    assert(figure * MICRO_PER_MILLI * units <= 0x0100_0000_0000_0000) by (nonlinear_arith)
        requires
            0 <= figure <= 0xffff_ffff,
            MICRO_PER_MILLI == 1000,
            0 <= units <= 255,
    ;
    assert(figure * MICRO_PER_MILLI <= 0x0100_0000_0000_0000);
    let scaled: u128 = (figure as u128) * MICRO_PER_MILLI * (units as u128);
    assert(scaled * devices <= 0x0100_0000_0000_0000 * 0x2_0000_0000_0000_0000) by (nonlinear_arith)
        requires
            scaled <= 0x0100_0000_0000_0000,
            devices <= 0x2_0000_0000_0000_0000,
    ;
    scaled * devices / DAYS_PER_YEAR
}

impl Evaluation {
    /// A profile of the given yearly figures and draws.
    pub fn new(
        energy_consumption_sensor_type: Vec<u32>,
        energy_consumption_light_in_different_states_of_different_rooms: Vec<Vec<u32>>,
    ) -> (evaluation: Evaluation)
        ensures
            evaluation.energy_consumption_sensor_type == energy_consumption_sensor_type,
            evaluation.energy_consumption_light_in_different_states_of_different_rooms
                == energy_consumption_light_in_different_states_of_different_rooms,
    {
        Evaluation {
            energy_consumption_sensor_type,
            energy_consumption_light_in_different_states_of_different_rooms,
        }
    }

    /// The profile has a yearly figure for both sensing classes and a draw for
    /// every state of both categories.
    pub open spec fn wf(&self) -> bool {
        &&& self.energy_consumption_sensor_type@.len() >= 2
        &&& self.energy_consumption_light_in_different_states_of_different_rooms@.len() >= 2
        &&& self.energy_consumption_light_in_different_states_of_different_rooms@[0]@.len() >= 3
        &&& self.energy_consumption_light_in_different_states_of_different_rooms@[1]@.len() >= 3
    }

    /// Whether the profile has every figure that the analysis reads.
    pub fn is_well_formed(&self) -> (b: bool)
        ensures
            b == self.wf(),
    {
        self.energy_consumption_sensor_type.len() >= 2
            && self.energy_consumption_light_in_different_states_of_different_rooms.len() >= 2
            && self.energy_consumption_light_in_different_states_of_different_rooms[0].len() >= 3
            && self.energy_consumption_light_in_different_states_of_different_rooms[1].len() >= 3
    }

    /// The draw in milliwatts of a light of the given category in the given
    /// state.
    pub fn draw_of(&self, category: Category, state: LightState) -> (milliwatts: u32)
        requires
            self.wf(),
        ensures
            milliwatts == draw(self@, category, state),
    {
        let row: usize = match category {
            Category::SubRoom => 0,
            Category::Room => 1,
        };
        let column: usize = match state {
            LightState::On => 0,
            LightState::Dim => 1,
            LightState::Off => 2,
        };
        self.energy_consumption_light_in_different_states_of_different_rooms[row][column]
    }

    /// What the event at `i` adds to the sums, or the fault in its identifier.
    pub fn measure(&self, events: &Vec<Event>, i: usize) -> (r: Result<Option<Credit>, Error>)
        requires
            self.wf(),
            chronological(views(events@)),
            i < events.len(),
        ensures
            match r {
                Ok(Some(credit)) => {
                    &&& !malformed_at(views(events@), i as int)
                    &&& interval(views(events@), i as int) matches Some(iv)
                    &&& iv.category == credit.category
                    &&& iv.key == credit.location@
                    &&& energy_of(self@, iv) == credit.energy
                    &&& credit.energy <= share_limit()
                },
                Ok(None) => {
                    &&& !malformed_at(views(events@), i as int)
                    &&& interval(views(events@), i as int) is None
                },
                Err(e) => {
                    &&& malformed_at(views(events@), i as int)
                    &&& e == (Error::MalformedIdentifier { position: i })
                },
            },
    {
        let ghost vs = views(events@);
        assert(vs[i as int] == events@[i as int]@);
        match &events[i].action {
            Action::Message(payload) => {
                let id = chars_of(events[i].entity_id.as_str());
                if is_occupancy(&id) {
                    return Ok(None);
                }
                let key = match location_key_of(&id) {
                    Some(key) => key,
                    None => {
                        return Err(Error::MalformedIdentifier { position: i });
                    },
                };
                let text = chars_of(payload.as_str());
                let token = match state_token_of(&text) {
                    Some(token) => token,
                    None => {
                        return Ok(None);
                    },
                };
                let j = match find_successor(events, i) {
                    Some(j) => j,
                    None => {
                        return Ok(None);
                    },
                };
                assert(vs[j as int] == events@[j as int]@);
                assert(vs[i as int].timestamp <= vs[j as int].timestamp);
                let duration: u32 = events[j].timestamp - events[i].timestamp;
                let category = category_of_key(&key);
                let energy: u128 = match light_state_of(&token) {
                    Some(state) => {
                        let milliwatts = self.draw_of(category, state);
                        assert(duration * milliwatts <= 0xffff_ffff * 0xffff_ffff)
                            by (nonlinear_arith)
                            requires
                                0 <= duration <= 0xffff_ffff,
                                0 <= milliwatts <= 0xffff_ffff,
                        ;
                        (duration as u128) * (milliwatts as u128)
                    },
                    None => 0,
                };
                Ok(Some(Credit { category, location: key, energy }))
            },
            _ => Ok(None),
        }
    }

    /// Scans the timeline and sums up the energy of every closed interval.
    ///
    /// The scan stops at the first message of a light whose identifier names
    /// no location, and reports its position.
    pub fn pair_durations(&self, events: &Vec<Event>) -> (r: Result<Tally, Error>)
        requires
            self.wf(),
            chronological(views(events@)),
        ensures
            match r {
                Ok(tally) => {
                    &&& forall|k: int| !malformed_at(views(events@), k)
                    &&& tally@ == tally_of(views(events@), self@, events.len() as int)
                },
                Err(Error::MalformedIdentifier { position }) => is_first_malformed(
                    views(events@),
                    position as int,
                ),
            },
    {
        let ghost vs = views(events@);
        let mut tally = Tally {
            room_total: 0,
            sub_room_total: 0,
            rooms: Vec::new(),
            sub_rooms: Vec::new(),
        };
        let mut i: usize = 0;
        assert(bucket_views(tally.rooms@) =~= Seq::empty());
        assert(bucket_views(tally.sub_rooms@) =~= Seq::empty());
        while i < events.len()
            invariant
                i <= events.len(),
                vs == views(events@),
                self.wf(),
                chronological(vs),
                forall|k: int| 0 <= k < i ==> !malformed_at(vs, k),
                tally@ == tally_of(vs, self@, i as int),
                tally.room_total <= i * share_limit(),
                tally.sub_room_total <= i * share_limit(),
                forall|k: int|
                    0 <= k < tally.rooms.len() ==> (#[trigger] tally.rooms[k]).energy <= i
                        * share_limit(),
                forall|k: int|
                    0 <= k < tally.sub_rooms.len() ==> (#[trigger] tally.sub_rooms[k]).energy <= i
                        * share_limit(),
            decreases events.len() - i,
        {
            let ghost limit: int = i * share_limit();
            assert((i + 1) * share_limit() <= u128::MAX) by (nonlinear_arith)
                requires
                    0 <= i < 0xffff_ffff_ffff_ffff,
                    share_limit() == 0xffff_fffe_0000_0001,
            ;
            assert((i + 1) * share_limit() == limit + share_limit()) by (nonlinear_arith)
                requires
                    limit == i * share_limit(),
            ;
            match self.measure(events, i) {
                Ok(Some(credit_due)) => {
                    match credit_due.category {
                        Category::Room => {
                            tally.room_total = tally.room_total + credit_due.energy;
                            credit(
                                &mut tally.rooms,
                                &credit_due.location,
                                credit_due.energy,
                                Ghost(limit),
                            );
                        },
                        Category::SubRoom => {
                            tally.sub_room_total = tally.sub_room_total + credit_due.energy;
                            credit(
                                &mut tally.sub_rooms,
                                &credit_due.location,
                                credit_due.energy,
                                Ghost(limit),
                            );
                        },
                    }
                },
                Ok(None) => {},
                Err(e) => {
                    return Err(e);
                },
            }
            i += 1;
        }
        assert forall|k: int| !malformed_at(vs, k) by {
            if 0 <= k < events.len() {
                assert(!malformed_at(vs, k));
            }
        }
        Ok(tally)
    }

    /// The report on the sums of a scan.
    pub fn report(&self, tally: &Tally) -> (report: Report)
        requires
            self.wf(),
        ensures
            report@ == report_of(tally@, self@),
    {
        let devices: u128 = (tally.sub_rooms.len() as u128) + (tally.rooms.len() as u128);
        Report {
            baseline_class_0: baseline(self.energy_consumption_sensor_type[0], 1, devices),
            baseline_class_1: baseline(self.energy_consumption_sensor_type[1], 2, devices),
            mean_room: mean(tally.room_total, tally.rooms.len()),
            mean_sub_room: mean(tally.sub_room_total, tally.sub_rooms.len()),
            rooms: to_microwatt_hours(&tally.rooms),
            sub_rooms: to_microwatt_hours(&tally.sub_rooms),
        }
    }

    /// The energy figures of a timeline.
    ///
    /// The timeline may be empty. Where no location of a category closes an
    /// interval, the report has no mean for that category.
    pub fn calculate_consumption(&self, event_list: &EventList) -> (r: Result<Report, Error>)
        requires
            self.wf(),
            chronological(event_list@),
        ensures
            match r {
                Ok(report) => {
                    &&& forall|k: int| !malformed_at(event_list@, k)
                    &&& report@ == consumption_report(event_list@, self@)
                },
                Err(Error::MalformedIdentifier { position }) => is_first_malformed(
                    event_list@,
                    position as int,
                ),
            },
    {
        match self.pair_durations(&event_list.events) {
            Ok(tally) => Ok(self.report(&tally)),
            Err(e) => Err(e),
        }
    }
}

/// No two buckets hold the same key.
pub open spec fn distinct_keys(buckets: Seq<BucketView>) -> bool {
    forall|a: int, b: int| 0 <= a < b < buckets.len() ==> buckets[a].key != buckets[b].key
}

/// Some bucket holds `key`.
pub open spec fn has_key(buckets: Seq<BucketView>, key: Seq<char>) -> bool {
    exists|k: int| 0 <= k < buckets.len() && buckets[k].key == key
}

/// What the event at `i` adds to the location `key` of `category`, in
/// microjoules.
pub open spec fn location_share(
    events: Seq<EventView>,
    profile: ProfileView,
    category: Category,
    key: Seq<char>,
    i: int,
) -> int {
    match interval(events, i) {
        Some(iv) => if iv.category == category && iv.key == key {
            energy_of(profile, iv)
        } else {
            0
        },
        None => 0,
    }
}

/// The energy in microjoules that the first `n` events add to the location
/// `key` of `category`.
pub open spec fn location_total(
    events: Seq<EventView>,
    profile: ProfileView,
    category: Category,
    key: Seq<char>,
    n: int,
) -> int
    decreases n,
{
    if n <= 0 {
        0
    } else {
        location_total(events, profile, category, key, n - 1) + location_share(
            events,
            profile,
            category,
            key,
            n - 1,
        )
    }
}

/// The event at `i` closes an interval of the location `key` of `category`.
pub open spec fn closes(events: Seq<EventView>, category: Category, key: Seq<char>, i: int) -> bool {
    match interval(events, i) {
        Some(iv) => iv.category == category && iv.key == key,
        None => false,
    }
}

/// One of the first `n` events closes an interval of the location `key` of
/// `category`.
pub open spec fn seen(events: Seq<EventView>, category: Category, key: Seq<char>, n: int) -> bool {
    exists|i: int| 0 <= i < n && closes(events, category, key, i)
}

/// Crediting a location keeps the keys apart and every other bucket as it is.
pub proof fn lemma_credited(buckets: Seq<BucketView>, key: Seq<char>, energy: int)
    requires
        distinct_keys(buckets),
    ensures
        distinct_keys(credited(buckets, key, energy)),
        has_key(credited(buckets, key, energy), key),
        has_key(buckets, key) ==> credited(buckets, key, energy).len() == buckets.len(),
        !has_key(buckets, key) ==> credited(buckets, key, energy) == buckets.push(
            BucketView { key, energy },
        ),
        forall|k: int|
            0 <= k < buckets.len() ==> {
                let after = #[trigger] credited(buckets, key, energy)[k];
                &&& after.key == buckets[k].key
                &&& after.energy == buckets[k].energy + if buckets[k].key == key {
                    energy
                } else {
                    0
                }
            },
{
    let after = credited(buckets, key, energy);
    if exists|k: int| is_bucket_of(buckets, key, k) {
        let k = choose|k: int| is_bucket_of(buckets, key, k);
        assert(after[k].key == key);
        assert(has_key(buckets, key));
        assert forall|m: int| 0 <= m < buckets.len() implies {
            let item = #[trigger] after[m];
            &&& item.key == buckets[m].key
            &&& item.energy == buckets[m].energy + if buckets[m].key == key {
                energy
            } else {
                0
            }
        } by {
            if m != k && buckets[m].key == key {
                if m < k {
                    assert(buckets[m].key != key);
                } else {
                    assert(buckets[k].key != buckets[m].key);
                }
            }
        }
        assert forall|a: int, b: int| 0 <= a < b < after.len() implies after[a].key
            != after[b].key by {
            assert(after[a].key == buckets[a].key);
            assert(after[b].key == buckets[b].key);
        }
    } else {
        assert(after[buckets.len() as int].key == key);
        if has_key(buckets, key) {
            let w = choose|k: int| 0 <= k < buckets.len() && buckets[k].key == key;
            lemma_first_bucket(buckets, key, w);
        }
        assert forall|m: int| 0 <= m < buckets.len() implies buckets[m].key != key by {
            if buckets[m].key == key {
                lemma_first_bucket(buckets, key, m);
            }
        }
    }
}

/// In front of any bucket of a key there is a first one.
proof fn lemma_first_bucket(buckets: Seq<BucketView>, key: Seq<char>, w: int)
    requires
        0 <= w < buckets.len(),
        buckets[w].key == key,
    ensures
        exists|k: int| is_bucket_of(buckets, key, k),
    decreases w,
{
    if forall|m: int| 0 <= m < w ==> buckets[m].key != key {
        assert(is_bucket_of(buckets, key, w));
    } else {
        let m = choose|m: int| 0 <= m < w && buckets[m].key == key;
        lemma_first_bucket(buckets, key, m);
    }
}

/// The buckets of a category hold each location that closed an interval
/// once, with the sum of the energy of its intervals.
pub proof fn lemma_buckets_sum_up(
    events: Seq<EventView>,
    profile: ProfileView,
    category: Category,
    n: int,
)
    ensures
        distinct_keys(buckets_of(events, profile, category, n)),
        forall|k: int|
            0 <= k < buckets_of(events, profile, category, n).len() ==> {
                let bucket = #[trigger] buckets_of(events, profile, category, n)[k];
                &&& bucket.energy == location_total(events, profile, category, bucket.key, n)
                &&& seen(events, category, bucket.key, n)
            },
        forall|key: Seq<char>|
            seen(events, category, key, n) ==> #[trigger] has_key(
                buckets_of(events, profile, category, n),
                key,
            ),
    decreases n,
{
    let now = buckets_of(events, profile, category, n);
    if n > 0 {
        let before = buckets_of(events, profile, category, n - 1);
        lemma_buckets_sum_up(events, profile, category, n - 1);
        let credit_due = match interval(events, n - 1) {
            Some(iv) => iv.category == category,
            None => false,
        };
        if credit_due {
            let iv = interval(events, n - 1).unwrap();
            let energy = energy_of(profile, iv);
            lemma_credited(before, iv.key, energy);
            assert(closes(events, category, iv.key, n - 1));
            assert(seen(events, category, iv.key, n));
            assert forall|k: int| 0 <= k < now.len() implies {
                let bucket = #[trigger] now[k];
                &&& bucket.energy == location_total(events, profile, category, bucket.key, n)
                &&& seen(events, category, bucket.key, n)
            } by {
                if k < before.len() {
                    assert(now[k].key == before[k].key);
                    assert(seen(events, category, before[k].key, n - 1));
                    let i = choose|i: int|
                        0 <= i < n - 1 && closes(events, category, before[k].key, i);
                    assert(0 <= i < n && closes(events, category, before[k].key, i));
                } else {
                    assert(!has_key(before, iv.key));
                    assert(now[k].key == iv.key);
                    lemma_unseen_is_zero(events, profile, category, iv.key, n - 1);
                }
            }
            assert forall|key: Seq<char>| seen(events, category, key, n) implies #[trigger] has_key(
                now,
                key,
            ) by {
                if key != iv.key {
                    let i = choose|i: int|
                        0 <= i < n && closes(events, category, key, i);
                    assert(i < n - 1);
                    assert(seen(events, category, key, n - 1));
                    assert(has_key(before, key));
                    let k = choose|k: int| 0 <= k < before.len() && before[k].key == key;
                    assert(now[k].key == key);
                }
            }
        } else {
            assert(now == before);
            assert forall|k: int| 0 <= k < now.len() implies {
                let bucket = #[trigger] now[k];
                &&& bucket.energy == location_total(events, profile, category, bucket.key, n)
                &&& seen(events, category, bucket.key, n)
            } by {
                assert(seen(events, category, before[k].key, n - 1));
                let i = choose|i: int|
                    0 <= i < n - 1 && closes(events, category, before[k].key, i);
                assert(0 <= i < n && closes(events, category, before[k].key, i));
            }
            assert forall|key: Seq<char>| seen(events, category, key, n) implies #[trigger] has_key(
                now,
                key,
            ) by {
                let i = choose|i: int|
                    0 <= i < n && closes(events, category, key, i);
                assert(i < n - 1);
                assert(seen(events, category, key, n - 1));
            }
        }
    }
}

/// A location that has closed no interval has no energy.
proof fn lemma_unseen_is_zero(
    events: Seq<EventView>,
    profile: ProfileView,
    category: Category,
    key: Seq<char>,
    n: int,
)
    requires
        !seen(events, category, key, n),
    ensures
        location_total(events, profile, category, key, n) == 0,
    decreases n,
{
    if n > 0 {
        assert(!seen(events, category, key, n - 1)) by {
            if seen(events, category, key, n - 1) {
                let i = choose|i: int| 0 <= i < n - 1 && closes(events, category, key, i);
                assert(0 <= i < n && closes(events, category, key, i));
            }
        }
        lemma_unseen_is_zero(events, profile, category, key, n - 1);
        assert(location_share(events, profile, category, key, n - 1) == 0) by {
            if location_share(events, profile, category, key, n - 1) != 0 {
                assert(closes(events, category, key, n - 1));
            }
        }
    }
}

/// A sensor whose location key holds `sub` counts for the sub-rooms and never
/// for the rooms, whatever else its identifier holds.
pub proof fn lemma_sub_room_separation(events: Seq<EventView>, profile: ProfileView, i: int)
    requires
        0 <= i < events.len(),
        location_key(events[i].entity_id) matches Some(key) && crate::text::contains(
            key,
            crate::identifier::sub_room_marker(),
        ),
    ensures
        share(events, profile, Category::Room, i) == 0,
        interval(events, i) matches Some(iv) ==> {
            &&& iv.category == Category::SubRoom
            &&& share(events, profile, Category::SubRoom, i) == energy_of(profile, iv)
        },
{
}

/// A sensor whose location key does not hold `sub` counts for the rooms and
/// never for the sub-rooms.
pub proof fn lemma_room_separation(events: Seq<EventView>, profile: ProfileView, i: int)
    requires
        0 <= i < events.len(),
        location_key(events[i].entity_id) matches Some(key) && !crate::text::contains(
            key,
            crate::identifier::sub_room_marker(),
        ),
    ensures
        share(events, profile, Category::SubRoom, i) == 0,
        interval(events, i) matches Some(iv) ==> {
            &&& iv.category == Category::Room
            &&& share(events, profile, Category::Room, i) == energy_of(profile, iv)
        },
{
}

/// Every bucket of a category holds a location of that category: the key of
/// a sub-room holds `sub`, the key of a room does not.
pub proof fn lemma_buckets_keep_category(
    events: Seq<EventView>,
    profile: ProfileView,
    category: Category,
    n: int,
)
    ensures
        forall|k: int|
            0 <= k < buckets_of(events, profile, category, n).len() ==> category_of(
                (#[trigger] buckets_of(events, profile, category, n)[k]).key,
            ) == category,
{
    lemma_buckets_sum_up(events, profile, category, n);
    let now = buckets_of(events, profile, category, n);
    assert forall|k: int| 0 <= k < now.len() implies category_of((#[trigger] now[k]).key)
        == category by {
        assert(seen(events, category, now[k].key, n));
        let i = choose|i: int| 0 <= i < n && closes(events, category, now[k].key, i);
        assert(closes(events, category, now[k].key, i));
    }
}

/// An event of a presence-only sensor opens no interval and adds nothing to
/// either category, whatever its payload.
pub proof fn lemma_occupancy_excluded(
    events: Seq<EventView>,
    profile: ProfileView,
    category: Category,
    i: int,
)
    requires
        is_occupancy_id(events[i].entity_id),
    ensures
        interval(events, i) is None,
        share(events, profile, category, i) == 0,
        !malformed_at(events, i),
{
}

/// An interval that no later event closes is dropped: a message that is the
/// last event of its entity opens no interval and adds nothing.
pub proof fn lemma_open_interval_dropped(
    events: Seq<EventView>,
    profile: ProfileView,
    category: Category,
    i: int,
)
    requires
        forall|j: int| i < j < events.len() ==> (#[trigger] events[j]).entity_id
            != events[i].entity_id,
    ensures
        successor(events, i) is None,
        interval(events, i) is None,
        share(events, profile, category, i) == 0,
{
    if exists|j: int| is_successor(events, i, j) {
        let j = choose|j: int| is_successor(events, i, j);
        assert(events[j].entity_id == events[i].entity_id);
    }
}

/// A closed interval counts with its length and the draw of its state: a
/// message of a light with a location and a state, which the event at `j`
/// closes, adds the time between the two events times the draw.
pub proof fn lemma_closed_interval_counts(
    events: Seq<EventView>,
    profile: ProfileView,
    i: int,
    j: int,
)
    requires
        is_successor(events, i, j),
        events[i].action is Message,
        !is_occupancy_id(events[i].entity_id),
        location_key(events[i].entity_id) is Some,
        state_token(events[i].action->Message_0) is Some,
    ensures
        interval(events, i) == Some(
            Interval {
                category: category_of(location_key(events[i].entity_id).unwrap()),
                key: location_key(events[i].entity_id).unwrap(),
                state: light_state(state_token(events[i].action->Message_0).unwrap()),
                duration: events[j].timestamp - events[i].timestamp,
            },
        ),
{
    let c = choose|c: int| is_successor(events, i, c);
    if c < j {
        assert(events[c].entity_id != events[i].entity_id);
    } else if j < c {
        assert(events[j].entity_id != events[i].entity_id);
    }
}

/// The two timelines hold the same entities at the same times, and the same
/// actions but for the events of presence-only sensors.
pub open spec fn same_but_occupancy_actions(a: Seq<EventView>, b: Seq<EventView>) -> bool {
    &&& a.len() == b.len()
    &&& forall|i: int|
        0 <= i < a.len() ==> {
            &&& (#[trigger] a[i]).entity_id == b[i].entity_id
            &&& a[i].timestamp == b[i].timestamp
            &&& (a[i].action == b[i].action || is_occupancy_id(a[i].entity_id))
        }
}

/// The interval that an event opens does not depend on what the events of
/// presence-only sensors do.
pub proof fn lemma_interval_ignores_occupancy(a: Seq<EventView>, b: Seq<EventView>, i: int)
    requires
        same_but_occupancy_actions(a, b),
        0 <= i < a.len(),
    ensures
        interval(a, i) == interval(b, i),
{
    assert(a[i].entity_id == b[i].entity_id);
    assert forall|j: int| is_successor(a, i, j) == is_successor(b, i, j) by {
        if is_successor(a, i, j) {
            assert(a[j].entity_id == b[j].entity_id);
            assert forall|k: int| i < k < j implies b[k].entity_id != b[i].entity_id by {
                assert(a[k].entity_id == b[k].entity_id);
            }
        }
        if is_successor(b, i, j) {
            assert(a[j].entity_id == b[j].entity_id);
            assert forall|k: int| i < k < j implies a[k].entity_id != a[i].entity_id by {
                assert(a[k].entity_id == b[k].entity_id);
            }
        }
    }
    if exists|j: int| is_successor(a, i, j) {
        let ja = choose|j: int| is_successor(a, i, j);
        assert(is_successor(b, i, ja));
        let jb = choose|j: int| is_successor(b, i, j);
        assert(is_successor(a, i, jb));
        if ja < jb {
            assert(a[ja].entity_id != a[i].entity_id);
        } else if jb < ja {
            assert(a[jb].entity_id != a[i].entity_id);
        }
        assert(a[ja].timestamp == b[ja].timestamp);
    } else {
        assert(successor(b, i) is None) by {
            if exists|j: int| is_successor(b, i, j) {
                let jb = choose|j: int| is_successor(b, i, j);
                assert(is_successor(a, i, jb));
            }
        }
    }
}

/// The sums of a timeline do not depend on what the events of presence-only
/// sensors do: whatever their payloads are, the sums are the same.
pub proof fn lemma_tally_ignores_occupancy(
    a: Seq<EventView>,
    b: Seq<EventView>,
    profile: ProfileView,
    n: int,
)
    requires
        same_but_occupancy_actions(a, b),
        n <= a.len(),
    ensures
        tally_of(a, profile, n) == tally_of(b, profile, n),
    decreases n,
{
    if n > 0 {
        lemma_tally_ignores_occupancy(a, b, profile, n - 1);
        lemma_interval_ignores_occupancy(a, b, n - 1);
    }
}

/// Two reports on the same timeline with the same profile hold the same
/// figures.
pub proof fn lemma_report_repeatable(
    first: Report,
    second: Report,
    events: Seq<EventView>,
    profile: ProfileView,
)
    requires
        first@ == consumption_report(events, profile),
        second@ == consumption_report(events, profile),
    ensures
        first@ == second@,
{
}

/// The events that a report counts: all but those of presence-only sensors.
pub open spec fn counted() -> spec_fn(EventView) -> bool {
    |e: EventView| !is_occupancy_id(e.entity_id)
}

/// The timeline without the events of presence-only sensors.
pub open spec fn without_occupancy(events: Seq<EventView>) -> Seq<EventView> {
    events.filter(counted())
}

/// The timeline without the event at `p`.
pub open spec fn without_event(events: Seq<EventView>, p: int) -> Seq<EventView> {
    events.take(p) + events.skip(p + 1)
}

/// No message of a light has an identifier without a location.
pub open spec fn all_located(events: Seq<EventView>) -> bool {
    forall|k: int| !malformed_at(events, k)
}

/// An event has at most one successor.
proof fn lemma_one_successor(events: Seq<EventView>, i: int, j: int, m: int)
    requires
        is_successor(events, i, j),
        is_successor(events, i, m),
    ensures
        j == m,
{
    if j < m {
        assert(events[j].entity_id != events[i].entity_id);
    } else if m < j {
        assert(events[m].entity_id != events[i].entity_id);
    }
}

/// The interval that an event opens is the same once an event of a
/// presence-only sensor is taken out of the timeline.
proof fn lemma_interval_skips(events: Seq<EventView>, p: int, k: int)
    requires
        0 <= p < events.len(),
        is_occupancy_id(events[p].entity_id),
        0 <= k < events.len(),
        k != p,
    ensures
        interval(events, k) == interval(
            without_event(events, p),
            if k < p {
                k
            } else {
                k - 1
            },
        ),
{
    let rest = without_event(events, p);
    let at = if k < p {
        k
    } else {
        k - 1
    };
    assert(rest[at] == events[k]);
    if !is_occupancy_id(events[k].entity_id) {
        assert(events[p].entity_id != events[k].entity_id);
        if exists|j: int| is_successor(events, k, j) {
            let j = choose|j: int| is_successor(events, k, j);
            let to = if j < p {
                j
            } else {
                j - 1
            };
            assert(rest[to] == events[j]);
            assert forall|m: int| at < m < to implies rest[m].entity_id != rest[at].entity_id by {
                let from = if m < p {
                    m
                } else {
                    m + 1
                };
                assert(rest[m] == events[from]);
                assert(k < from < j);
            }
            assert(is_successor(rest, at, to));
            lemma_one_successor(rest, at, to, choose|j: int| is_successor(rest, at, j));
        } else if exists|j: int| is_successor(rest, at, j) {
            let to = choose|j: int| is_successor(rest, at, j);
            let j = if to < p {
                to
            } else {
                to + 1
            };
            assert(events[j] == rest[to]);
            assert forall|m: int| k < m < j implies events[m].entity_id != events[k].entity_id by {
                if m != p {
                    let within = if m < p {
                        m
                    } else {
                        m - 1
                    };
                    assert(rest[within] == events[m]);
                    assert(at < within < to);
                }
            }
            assert(is_successor(events, k, j));
        }
    }
}

/// The sums over a timeline are the same once an event of a presence-only
/// sensor is taken out of it.
proof fn lemma_tally_skips(events: Seq<EventView>, profile: ProfileView, p: int, n: int)
    requires
        0 <= p < events.len(),
        is_occupancy_id(events[p].entity_id),
        0 <= n <= events.len(),
    ensures
        tally_of(events, profile, n) == tally_of(
            without_event(events, p),
            profile,
            if n <= p {
                n
            } else {
                n - 1
            },
        ),
    decreases n,
{
    if n > 0 {
        lemma_tally_skips(events, profile, p, n - 1);
        if n - 1 != p {
            lemma_interval_skips(events, p, n - 1);
        }
    }
}

/// Taking out one event of a presence-only sensor and then all of them is
/// taking out all of them.
proof fn lemma_filter_skips(events: Seq<EventView>, p: int)
    requires
        0 <= p < events.len(),
        is_occupancy_id(events[p].entity_id),
    ensures
        without_occupancy(without_event(events, p)) == without_occupancy(events),
{
    let head = events.take(p);
    let one = seq![events[p]];
    let tail = events.skip(p + 1);
    assert(events =~= head + one + tail);
    Seq::filter_distributes_over_add(head, one, counted());
    Seq::filter_distributes_over_add(head + one, tail, counted());
    Seq::filter_distributes_over_add(head, tail, counted());
    assert(one.filter(counted()) =~= Seq::<EventView>::empty()) by {
        reveal_with_fuel(Seq::filter, 2);
        assert(one.drop_last() =~= Seq::<EventView>::empty());
    }
    assert(head.filter(counted()) + Seq::<EventView>::empty() =~= head.filter(counted()));
}

/// A timeline without events of presence-only sensors stays as it is.
proof fn lemma_filter_keeps(events: Seq<EventView>)
    requires
        forall|k: int| 0 <= k < events.len() ==> !is_occupancy_id(events[k].entity_id),
    ensures
        without_occupancy(events) == events,
    decreases events.len(),
{
    reveal(Seq::filter);
    if events.len() > 0 {
        lemma_filter_keeps(events.drop_last());
        assert(events.drop_last().push(events.last()) =~= events);
    }
}

/// Taking out an event of a presence-only sensor keeps a timeline in order
/// and neither mends nor makes a malformed identifier.
proof fn lemma_validity_skips(events: Seq<EventView>, p: int)
    requires
        0 <= p < events.len(),
        is_occupancy_id(events[p].entity_id),
    ensures
        chronological(events) ==> chronological(without_event(events, p)),
        all_located(events) == all_located(without_event(events, p)),
{
    let rest = without_event(events, p);
    if chronological(events) {
        assert forall|i: int, j: int| 0 <= i <= j < rest.len() implies rest[i].timestamp
            <= rest[j].timestamp by {
            let a = if i < p {
                i
            } else {
                i + 1
            };
            let b = if j < p {
                j
            } else {
                j + 1
            };
            assert(rest[i] == events[a] && rest[j] == events[b]);
        }
    }
    if all_located(events) {
        assert forall|k: int| !malformed_at(rest, k) by {
            if 0 <= k < rest.len() {
                let a = if k < p {
                    k
                } else {
                    k + 1
                };
                assert(rest[k] == events[a]);
                assert(!malformed_at(events, a));
            }
        }
    }
    if all_located(rest) {
        assert forall|k: int| !malformed_at(events, k) by {
            if 0 <= k < events.len() && k != p {
                let a = if k < p {
                    k
                } else {
                    k - 1
                };
                assert(rest[a] == events[k]);
                assert(!malformed_at(rest, a));
            }
        }
    }
}

/// The events of presence-only sensors do not count: a timeline and the same
/// timeline without them give the same report, figure by figure. The second
/// is in order where the first is, and a report is owed for both or for
/// neither.
pub proof fn lemma_report_without_occupancy(events: Seq<EventView>, profile: ProfileView)
    ensures
        consumption_report(events, profile) == consumption_report(
            without_occupancy(events),
            profile,
        ),
        chronological(events) ==> chronological(without_occupancy(events)),
        all_located(events) == all_located(without_occupancy(events)),
    decreases events.len(),
{
    if exists|p: int| 0 <= p < events.len() && is_occupancy_id(events[p].entity_id) {
        let p = choose|p: int| 0 <= p < events.len() && is_occupancy_id(events[p].entity_id);
        lemma_filter_skips(events, p);
        lemma_tally_skips(events, profile, p, events.len() as int);
        lemma_validity_skips(events, p);
        lemma_report_without_occupancy(without_event(events, p), profile);
    } else {
        lemma_filter_keeps(events);
    }
}

} // verus!
