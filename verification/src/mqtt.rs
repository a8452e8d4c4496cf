//! What is told to the home's message broker.

use vstd::prelude::*;
use vstd::string::*;

use crate::config::DialConfig;
use crate::config::LedConfig;
use crate::config::MqttConfig;
use crate::detect::DialReading;
use crate::detect::DialState;
use crate::json::json_string;
use crate::json::quoted;
use crate::text::ascii_fold;
use crate::text::occurs_in;
use crate::text::same_text;
use crate::text::stands_at;
use crate::text::underscore;
use crate::text::underscored;
use crate::types::LedState;

verus! {

/// Why something could not be told to the broker.
#[derive(Debug, PartialEq, Eq)]
pub enum MqttError {
    Client(String),
    Connection(String),
}

impl MqttError {
    /// The message for this error.
    pub open spec fn spec_text(&self) -> Seq<char> {
        match self {
            MqttError::Client(err) => "MQTT client error: "@ + err@,
            MqttError::Connection(err) => "MQTT connection error: "@ + err@,
        }
    }

    /// The message for this error.
    pub fn text(&self) -> (r: String)
        ensures
            r@ == self.spec_text(),
    {
        match self {
            MqttError::Client(err) => {
                let mut s: String = String::from_str("MQTT client error: ");
                s.append(err.as_str());
                s
            },
            MqttError::Connection(err) => {
                let mut s: String = String::from_str("MQTT connection error: ");
                s.append(err.as_str());
                s
            },
        }
    }
}

/// A message to the broker. All are sent until they have arrived at least once.
#[derive(Debug, PartialEq, Eq)]
pub struct Message {
    pub topic: String,
    pub payload: String,
    /// Whether the broker keeps the message for those who ask later.
    pub retain: bool,
}

/// What a [`Message`] is.
#[verifier::ext_equal]
pub struct MessageView {
    pub topic: Seq<char>,
    pub payload: Seq<char>,
    pub retain: bool,
}

impl View for Message {
    type V = MessageView;

    open spec fn view(&self) -> MessageView {
        MessageView { topic: self.topic@, payload: self.payload@, retain: self.retain }
    }
}

/// What a list of messages is.
pub open spec fn messages(v: Seq<Message>) -> Seq<MessageView> {
    v.map_values(|m: Message| m@)
}

/// The message that tells whether the readings can be trusted.
pub open spec fn availability(payload: Seq<char>) -> MessageView {
    MessageView { topic: "oven_vision/availability"@, payload, retain: true }
}

fn availability_message(payload: &str) -> (r: Message)
    ensures
        r@ == availability(payload@),
{
    Message {
        topic: String::from_str("oven_vision/availability"),
        payload: payload.to_owned(),
        retain: true,
    }
}

/// How to connect to the broker.
#[derive(Debug, PartialEq, Eq)]
pub struct Connection {
    pub client_id: String,
    pub host: String,
    pub port: u16,
    pub keepalive_secs: u64,
    /// The user and the password, where both are known.
    pub credentials: Option<(String, String)>,
    /// What the broker tells the others when the connection breaks.
    pub last_will: Message,
    /// How many messages may wait to be sent.
    pub capacity: usize,
}

impl Connection {
    /// Whether this is the connection that the settings ask for.
    pub open spec fn follows(&self, config: &MqttConfig) -> bool {
        &&& self.client_id@ == "oven-vision"@
        &&& self.host@ == config.host@
        &&& self.port == config.port
        &&& self.keepalive_secs == config.keepalive_secs
        &&& match (config.user, config.pass) {
            (Some(user), Some(pass)) => self.credentials matches Some(c) && c.0@ == user@ && c.1@
                == pass@,
            _ => self.credentials is None,
        }
        &&& self.last_will@ == availability("offline"@)
        &&& self.capacity == 10
    }
}

/// The connection that the settings ask for.
fn connection(config: &MqttConfig) -> (r: Connection)
    ensures
        r.follows(config),
{
    let credentials: Option<(String, String)> = match (&config.user, &config.pass) {
        (Some(user), Some(pass)) => Some((user.clone(), pass.clone())),
        _ => None,
    };
    Connection {
        client_id: String::from_str("oven-vision"),
        host: config.host.clone(),
        port: config.port,
        keepalive_secs: config.keepalive_secs,
        credentials,
        last_will: availability_message("offline"),
        capacity: 10,
    }
}

/// The text in small letters.
pub uninterp spec fn lowercase(s: Seq<char>) -> Seq<char>;

/// The text in small letters, by `str::to_lowercase`.
///
/// Taken on trust: the answer depends on the text alone; in a text of ASCII
/// characters, each of the letters `A` to `Z` gives way to its small one and
/// all else stays.
#[verifier::external_body]
fn to_lowercase(s: &str) -> (r: String)
    ensures
        r@ == lowercase(s@),
        (forall|i: int| 0 <= i < s@.len() ==> (#[trigger] s@[i] as u32) < 128) ==> r@.len()
            == s@.len() && forall|i: int|
            0 <= i < s@.len() ==> #[trigger] r@[i] as int == ascii_fold(s@[i]),
{
    s.to_lowercase()
}

/// A label as it stands in topics: in small letters, without spaces.
pub open spec fn slug_of(label: Seq<char>) -> Seq<char> {
    underscored(lowercase(label), ' ')
}

/// A label as it stands in topics: in small letters, without spaces.
pub fn slug(label: &str) -> (r: String)
    ensures
        r@ == slug_of(label@),
        !r@.contains(' '),
        (forall|i: int| 0 <= i < label@.len() ==> (#[trigger] label@[i] as u32) < 128) ==> r@.len()
            == label@.len() && forall|i: int|
            0 <= i < label@.len() ==> #[trigger] r@[i] as int == (if label@[i] == ' ' {
                '_' as int
            } else {
                ascii_fold(label@[i])
            }),
{
    let small: String = to_lowercase(label);
    let r: String = underscore(small.as_str(), ' ');
    assert forall|i: int|
        0 <= i < label@.len() && small@.len() == label@.len() && small@[i] as int == ascii_fold(
            label@[i],
        ) implies #[trigger] r@[i] as int == (if label@[i] == ' ' {
        '_' as int
    } else {
        ascii_fold(label@[i])
    }) by {
        assert(small@[i] == ' ' <==> label@[i] == ' ');
    }
    r
}

/// The device that all sensors belong to, in JSON.
pub open spec fn device() -> Seq<char> {
    "{\"identifiers\":[\"oven_vision\"],\"manufacturer\":\"DIY\",\"model\":\"Oven Vision v1\",\"name\":\"Kitchen Stove\"}"@
}

/// The message by which a home learns of the sensor that says whether a dial is on.
pub open spec fn binary_sensor(label: Seq<char>, slug: Seq<char>) -> MessageView {
    MessageView {
        topic: "homeassistant/binary_sensor/oven_vision_"@ + slug + "/config"@,
        payload: "{\"availability_topic\":\"oven_vision/availability\",\"device\":"@ + device()
            + ",\"device_class\":\"heat\",\"name\":"@ + json_string(label)
            + ",\"payload_available\":\"online\",\"payload_not_available\":\"offline\",\"payload_off\":\"OFF\",\"payload_on\":\"ON\",\"state_topic\":"@
            + json_string("oven_vision/"@ + slug + "/state"@) + ",\"unique_id\":"@ + json_string(
            "oven_vision_"@ + slug,
        ) + "}"@,
        retain: true,
    }
}

/// The message by which a home learns of a sensor with named states. Its
/// name ends in `title`, its topics in `/` and `part`.
pub open spec fn choice_sensor(
    label: Seq<char>,
    slug: Seq<char>,
    title: Seq<char>,
    part: Seq<char>,
    options: Seq<char>,
) -> MessageView {
    MessageView {
        topic: "homeassistant/sensor/oven_vision_"@ + slug + "_"@ + part + "/config"@,
        payload: "{\"availability_topic\":\"oven_vision/availability\",\"device\":"@ + device()
            + ",\"name\":"@ + json_string(label + title) + ",\"options\":"@ + options
            + ",\"payload_available\":\"online\",\"payload_not_available\":\"offline\",\"state_topic\":"@
            + json_string("oven_vision/"@ + slug + "/"@ + part) + ",\"unique_id\":"@ + json_string(
            "oven_vision_"@ + slug + "_"@ + part,
        ) + "}"@,
        retain: true,
    }
}

pub open spec fn level_sensor(label: Seq<char>, slug: Seq<char>) -> MessageView {
    choice_sensor(
        label,
        slug,
        " Level"@,
        "level"@,
        "[\"off\",\"low\",\"medium\",\"high\",\"max\"]"@,
    )
}

pub open spec fn mode_sensor(label: Seq<char>, slug: Seq<char>) -> MessageView {
    choice_sensor(label, slug, " Mode"@, "mode"@, "[\"off\",\"on\",\"heating\"]"@)
}

/// The messages by which a home learns of a dial: whether it is on, its heat,
/// and, where it has a lamp, what the lamp shows.
pub open spec fn dial_sensors(label: Seq<char>, slug: Seq<char>, has_led: bool) -> Seq<MessageView> {
    let always = seq![binary_sensor(label, slug), level_sensor(label, slug)];
    if has_led {
        always.push(mode_sensor(label, slug))
    } else {
        always
    }
}

/// The text `start`, `slug`, `end`.
fn around(start: &str, slug: &str, end: &str) -> (r: String)
    ensures
        r@ == start@ + slug@ + end@,
{
    let mut s: String = start.to_owned();
    s.append(slug);
    s.append(end);
    s
}

fn device_text() -> (r: &'static str)
    ensures
        r@ == device(),
{
    "{\"identifiers\":[\"oven_vision\"],\"manufacturer\":\"DIY\",\"model\":\"Oven Vision v1\",\"name\":\"Kitchen Stove\"}"
}

fn binary_message(label: &str, slug: &str) -> (r: Message)
    ensures
        r@ == binary_sensor(label@, slug@),
{
    let topic: String = around("homeassistant/binary_sensor/oven_vision_", slug, "/config");
    let mut s: String = String::from_str(
        "{\"availability_topic\":\"oven_vision/availability\",\"device\":",
    );
    s.append(device_text());
    s.append(",\"device_class\":\"heat\",\"name\":");
    s.append(quoted(label).as_str());
    s.append(
        ",\"payload_available\":\"online\",\"payload_not_available\":\"offline\",\"payload_off\":\"OFF\",\"payload_on\":\"ON\",\"state_topic\":",
    );
    s.append(quoted(around("oven_vision/", slug, "/state").as_str()).as_str());
    s.append(",\"unique_id\":");
    let mut id: String = String::from_str("oven_vision_");
    id.append(slug);
    s.append(quoted(id.as_str()).as_str());
    s.append("}");
    Message { topic, payload: s, retain: true }
}

fn choice_message(label: &str, slug: &str, title: &str, part: &str, options: &str) -> (r: Message)
    ensures
        r@ == choice_sensor(label@, slug@, title@, part@, options@),
{
    let mut topic: String = around("homeassistant/sensor/oven_vision_", slug, "_");
    topic.append(part);
    topic.append("/config");
    let mut s: String = String::from_str(
        "{\"availability_topic\":\"oven_vision/availability\",\"device\":",
    );
    s.append(device_text());
    s.append(",\"name\":");
    let mut name: String = label.to_owned();
    name.append(title);
    s.append(quoted(name.as_str()).as_str());
    s.append(",\"options\":");
    s.append(options);
    s.append(
        ",\"payload_available\":\"online\",\"payload_not_available\":\"offline\",\"state_topic\":",
    );
    let mut state: String = around("oven_vision/", slug, "/");
    state.append(part);
    s.append(quoted(state.as_str()).as_str());
    s.append(",\"unique_id\":");
    let mut id: String = around("oven_vision_", slug, "_");
    id.append(part);
    s.append(quoted(id.as_str()).as_str());
    s.append("}");
    Message { topic, payload: s, retain: true }
}

/// The messages by which a home learns of the dial with this label, whose
/// topics hold `slug`.
pub fn dial_messages(label: &str, slug: &str, has_led: bool) -> (r: Vec<Message>)
    ensures
        messages(r@) == dial_sensors(label@, slug@, has_led),
{
    let mut r: Vec<Message> = Vec::new();
    r.push(binary_message(label, slug));
    r.push(
        choice_message(
            label,
            slug,
            " Level",
            "level",
            "[\"off\",\"low\",\"medium\",\"high\",\"max\"]",
        ),
    );
    if has_led {
        r.push(choice_message(label, slug, " Mode", "mode", "[\"off\",\"on\",\"heating\"]"));
    }
    assert(messages(r@) =~= dial_sensors(label@, slug@, has_led));
    r
}

/// Whether a lamp has this label.
pub open spec fn has_lamp(leds: Seq<LedConfig>, label: Seq<char>) -> bool {
    exists|i: int| 0 <= i < leds.len() && (#[trigger] leds[i]).label@ == label
}

fn find_lamp(leds: &Vec<LedConfig>, label: &str) -> (r: bool)
    ensures
        r == has_lamp(leds@, label@),
{
    let mut i: usize = 0;
    while i < leds.len()
        invariant
            i <= leds@.len(),
            forall|j: int| 0 <= j < i ==> (#[trigger] leds@[j]).label@ != label@,
        decreases leds@.len() - i,
    {
        if same_text(leds[i].label.as_str(), label) {
            return true;
        }
        i = i + 1;
    }
    false
}

/// The messages by which a home learns of all dials.
pub open spec fn discovery(dials: Seq<DialConfig>, leds: Seq<LedConfig>) -> Seq<MessageView>
    decreases dials.len(),
{
    if dials.len() == 0 {
        Seq::empty()
    } else {
        let label = dials.last().label@;
        discovery(dials.drop_last(), leds) + dial_sensors(label, slug_of(label), has_lamp(leds, label))
    }
}

/// Appends the messages of `more` to `list`.
fn append_messages(list: &mut Vec<Message>, more: Vec<Message>)
    ensures
        messages(final(list)@) == messages(old(list)@) + messages(more@),
{
    let mut more: Vec<Message> = more;
    let ghost added = more@;
    list.append(&mut more);
    assert(messages(list@) =~= messages(old(list)@) + messages(added));
}

/// Whether no dial could be read.
pub open spec fn all_unavailable(readings: Seq<DialReading>) -> bool {
    forall|i: int|
        0 <= i < readings.len() ==> (#[trigger] readings[i]).state == DialState::Unavailable
}

/// What is told of a dial: whether it is on, and its heat.
pub open spec fn dial_report(slug: Seq<char>, state: DialState) -> Seq<MessageView> {
    seq![
        MessageView {
            topic: "oven_vision/"@ + slug + "/state"@,
            payload: match state {
                DialState::On(_) => "ON"@,
                _ => "OFF"@,
            },
            retain: false,
        },
        MessageView {
            topic: "oven_vision/"@ + slug + "/level"@,
            payload: match state {
                DialState::On(level) => level.spec_text(),
                _ => "off"@,
            },
            retain: false,
        },
    ]
}

/// What is told of a lamp.
pub open spec fn led_report(slug: Seq<char>, state: LedState) -> MessageView {
    MessageView {
        topic: "oven_vision/"@ + slug + "/mode"@,
        payload: state.spec_text(),
        retain: false,
    }
}

/// The messages about the dial whose topics hold `slug`.
pub fn dial_report_messages(slug: &str, state: DialState) -> (r: Vec<Message>)
    ensures
        messages(r@) == dial_report(slug@, state),
{
    let on: &'static str = match state {
        DialState::On(_) => "ON",
        _ => "OFF",
    };
    let level: &'static str = match state {
        DialState::On(level) => level.text(),
        _ => "off",
    };
    let mut r: Vec<Message> = Vec::new();
    r.push(
        Message {
            topic: around("oven_vision/", slug, "/state"),
            payload: on.to_owned(),
            retain: false,
        },
    );
    r.push(
        Message {
            topic: around("oven_vision/", slug, "/level"),
            payload: level.to_owned(),
            retain: false,
        },
    );
    assert(messages(r@) =~= dial_report(slug@, state));
    r
}

/// The message about the lamp whose topics hold `slug`.
pub fn led_report_message(slug: &str, state: LedState) -> (r: Message)
    ensures
        r@ == led_report(slug@, state),
{
    Message {
        topic: around("oven_vision/", slug, "/mode"),
        payload: state.text().to_owned(),
        retain: false,
    }
}

/// What is told of all dials.
pub open spec fn dial_reports(readings: Seq<DialReading>) -> Seq<MessageView>
    decreases readings.len(),
{
    if readings.len() == 0 {
        Seq::empty()
    } else {
        dial_reports(readings.drop_last()) + dial_report(
            slug_of(readings.last().label@),
            readings.last().state,
        )
    }
}

/// What is told of all lamps.
pub open spec fn led_reports(leds: Seq<(String, LedState)>) -> Seq<MessageView> {
    leds.map_values(|led: (String, LedState)| led_report(slug_of(led.0@), led.1))
}

/// What is told of the readings: everything, or only that none can be
/// trusted where no dial could be read.
pub open spec fn report(readings: Seq<DialReading>, leds: Seq<(String, LedState)>) -> Seq<
    MessageView,
> {
    if all_unavailable(readings) {
        seq![availability("offline"@)]
    } else {
        dial_reports(readings) + led_reports(leds)
    }
}

/// What is told to the broker first: that the readings are there, and which
/// sensors there are.
fn start_messages(dials: &Vec<DialConfig>, leds: &Vec<LedConfig>) -> (r: Vec<Message>)
    ensures
        messages(r@) == seq![availability("online"@)] + discovery(dials@, leds@),
{
    let mut r: Vec<Message> = Vec::new();
    r.push(availability_message("online"));
    let ghost first = seq![availability("online"@)];
    assert(messages(r@) =~= first + Seq::<MessageView>::empty());
    assert(dials@.take(0) =~= Seq::<DialConfig>::empty());
    let mut i: usize = 0;
    while i < dials.len()
        invariant
            i <= dials@.len(),
            messages(r@) == first + discovery(dials@.take(i as int), leds@),
        decreases dials@.len() - i,
    {
        let label: &str = dials[i].label.as_str();
        let more: Vec<Message> = dial_messages(label, slug(label).as_str(), find_lamp(leds, label));
        append_messages(&mut r, more);
        assert(dials@.take(i as int + 1).drop_last() =~= dials@.take(i as int));
        assert(messages(r@) =~= first + discovery(dials@.take(i as int + 1), leds@));
        i = i + 1;
    }
    assert(dials@.take(i as int) =~= dials@);
    r
}

/// What is told of the readings.
fn state_messages(readings: &Vec<DialReading>, led_states: &Vec<(String, LedState)>) -> (r: Vec<
    Message,
>)
    ensures
        messages(r@) == report(readings@, led_states@),
{
    let mut r: Vec<Message> = Vec::new();
    let mut seen: bool = false;
    let mut k: usize = 0;
    while k < readings.len()
        invariant
            k <= readings@.len(),
            !seen ==> forall|j: int|
                0 <= j < k ==> (#[trigger] readings@[j]).state == DialState::Unavailable,
            seen ==> !all_unavailable(readings@),
        decreases readings@.len() - k,
    {
        if let DialState::Unavailable = readings[k].state {
        } else {
            seen = true;
        }
        k = k + 1;
    }
    if !seen {
        r.push(availability_message("offline"));
        assert(messages(r@) =~= report(readings@, led_states@));
        return r;
    }
    assert(messages(r@) =~= Seq::<MessageView>::empty());
    assert(readings@.take(0) =~= Seq::<DialReading>::empty());
    let mut i: usize = 0;
    while i < readings.len()
        invariant
            i <= readings@.len(),
            messages(r@) == dial_reports(readings@.take(i as int)),
        decreases readings@.len() - i,
    {
        let more: Vec<Message> = dial_report_messages(
            slug(readings[i].label.as_str()).as_str(),
            readings[i].state,
        );
        append_messages(&mut r, more);
        assert(readings@.take(i as int + 1).drop_last() =~= readings@.take(i as int));
        i = i + 1;
    }
    assert(readings@.take(i as int) =~= readings@);
    let ghost dials = dial_reports(readings@);
    assert(messages(r@) =~= dials + led_reports(led_states@.take(0)));
    let mut j: usize = 0;
    while j < led_states.len()
        invariant
            j <= led_states@.len(),
            messages(r@) == dials + led_reports(led_states@.take(j as int)),
        decreases led_states@.len() - j,
    {
        let (label, state): (&String, LedState) = (&led_states[j].0, led_states[j].1);
        let ghost before = r@;
        r.push(led_report_message(slug(label.as_str()).as_str(), state));
        assert(messages(r@) =~= messages(before).push(r@.last()@));
        assert(led_reports(led_states@.take(j as int + 1)) =~= led_reports(
            led_states@.take(j as int),
        ).push(r@.last()@));
        assert(messages(r@) =~= dials + led_reports(led_states@.take(j as int + 1)));
        j = j + 1;
    }
    assert(led_states@.take(j as int) =~= led_states@);
    r
}

/// Tells a broker of the stove.
#[derive(Debug, PartialEq, Eq)]
pub struct MqttPublisher {
    pub connection: Connection,
    /// Whether the broker has been told of the sensors.
    pub started: bool,
}

impl MqttPublisher {
    /// A publisher for the broker in the settings.
    pub fn new(config: &MqttConfig) -> (r: Result<Self, MqttError>)
        ensures
            r matches Ok(p) && p.connection.follows(config) && !p.started,
    {
        Ok(MqttPublisher { connection: connection(config), started: false })
    }

    /// What is told first: that the readings are there, and which sensors
    /// there are. This is told only once.
    pub fn start(&mut self, dials: &Vec<DialConfig>, leds: &Vec<LedConfig>) -> (r: Vec<Message>)
        requires
            !old(self).started,
        ensures
            *final(self) == (MqttPublisher { started: true, ..*old(self) }),
            messages(r@) == seq![availability("online"@)] + discovery(dials@, leds@),
    {
        self.started = true;
        start_messages(dials, leds)
    }

    /// What is told of the readings.
    pub fn publish_states(
        &self,
        readings: &Vec<DialReading>,
        led_states: &Vec<(String, LedState)>,
    ) -> (r: Vec<Message>)
        ensures
            messages(r@) == report(readings@, led_states@),
    {
        state_messages(readings, led_states)
    }
}

proof fn middle_occurs(a: Seq<char>, x: Seq<char>, b: Seq<char>)
    ensures
        occurs_in(x, a + x + b),
{
    assert((a + x + b).subrange(a.len() as int, (a.len() + x.len()) as int) =~= x);
    assert(stands_at(a + x + b, x, a.len() as int));
}

/// Each report goes to the topic that its sensor was announced with.
pub proof fn reports_go_where_sensors_listen(
    label: Seq<char>,
    slug: Seq<char>,
    dial: DialState,
    led: LedState,
)
    ensures
        occurs_in(json_string(dial_report(slug, dial)[0].topic), binary_sensor(label, slug).payload),
        occurs_in(json_string(dial_report(slug, dial)[1].topic), level_sensor(label, slug).payload),
        occurs_in(json_string(led_report(slug, led).topic), mode_sensor(label, slug).payload),
{
    reveal_strlit("/");
    reveal_strlit("level");
    reveal_strlit("/level");
    reveal_strlit("mode");
    reveal_strlit("/mode");
    let state = dial_report(slug, dial)[0].topic;
    let id = ",\"unique_id\":"@ + json_string("oven_vision_"@ + slug) + "}"@;
    let start = "{\"availability_topic\":\"oven_vision/availability\",\"device\":"@ + device()
        + ",\"device_class\":\"heat\",\"name\":"@ + json_string(label)
        + ",\"payload_available\":\"online\",\"payload_not_available\":\"offline\",\"payload_off\":\"OFF\",\"payload_on\":\"ON\",\"state_topic\":"@;
    assert(binary_sensor(label, slug).payload =~= start + json_string(state) + id);
    middle_occurs(start, json_string(state), id);
    assert("oven_vision/"@ + slug + "/"@ + "level"@ =~= "oven_vision/"@ + slug + "/level"@);
    assert("oven_vision/"@ + slug + "/"@ + "mode"@ =~= "oven_vision/"@ + slug + "/mode"@);
    choice_topic_occurs(
        label,
        slug,
        " Level"@,
        "level"@,
        "[\"off\",\"low\",\"medium\",\"high\",\"max\"]"@,
    );
    choice_topic_occurs(label, slug, " Mode"@, "mode"@, "[\"off\",\"on\",\"heating\"]"@);
}

proof fn choice_topic_occurs(
    label: Seq<char>,
    slug: Seq<char>,
    title: Seq<char>,
    part: Seq<char>,
    options: Seq<char>,
)
    ensures
        occurs_in(
            json_string("oven_vision/"@ + slug + "/"@ + part),
            choice_sensor(label, slug, title, part, options).payload,
        ),
{
    let topic = "oven_vision/"@ + slug + "/"@ + part;
    let start = "{\"availability_topic\":\"oven_vision/availability\",\"device\":"@ + device()
        + ",\"name\":"@ + json_string(label + title) + ",\"options\":"@ + options
        + ",\"payload_available\":\"online\",\"payload_not_available\":\"offline\",\"state_topic\":"@;
    let id = ",\"unique_id\":"@ + json_string("oven_vision_"@ + slug + "_"@ + part) + "}"@;
    assert(choice_sensor(label, slug, title, part, options).payload =~= start + json_string(topic)
        + id);
    middle_occurs(start, json_string(topic), id);
}


/// Dials are announced one after the other, each by two or three messages.
pub proof fn dials_are_announced_in_turn(a: Seq<DialConfig>, b: Seq<DialConfig>, leds: Seq<LedConfig>)
    ensures
        discovery(a + b, leds) == discovery(a, leds) + discovery(b, leds),
        a.len() == 1 ==> discovery(a, leds) == dial_sensors(
            a[0].label@,
            slug_of(a[0].label@),
            exists|i: int| 0 <= i < leds.len() && (#[trigger] leds[i]).label@ == a[0].label@,
        ),
        a.len() == 0 ==> discovery(a, leds).len() == 0,
    decreases b.len(),
{
    if a.len() == 1 {
        assert(discovery(a.drop_last(), leds) =~= Seq::empty());
        assert(discovery(a, leds) =~= dial_sensors(
            a[0].label@,
            slug_of(a[0].label@),
            has_lamp(leds, a[0].label@),
        ));
    }
    if b.len() == 0 {
        assert(a + b =~= a);
        assert(discovery(a + b, leds) =~= discovery(a, leds) + discovery(b, leds));
    } else {
        dials_are_announced_in_turn(a, b.drop_last(), leds);
        assert((a + b).drop_last() =~= a + b.drop_last());
        assert((a + b).last() == b.last());
        assert(discovery(a + b, leds) =~= discovery(a, leds) + discovery(b, leds));
    }
}

/// Every dial is announced by a sensor for heat and one for its level, and one with a lamp by a third
/// for its mode. Announcements are kept by the broker.
pub proof fn sensors_are_announced_for_good(label: Seq<char>, slug: Seq<char>, has_led: bool)
    ensures
        ({
            let s = dial_sensors(label, slug, has_led);
            &&& s.len() == if has_led {
                3nat
            } else {
                2nat
            }
            &&& forall|i: int| 0 <= i < s.len() ==> (#[trigger] s[i]).retain
            &&& s[0].topic == "homeassistant/binary_sensor/oven_vision_"@ + slug + "/config"@
            &&& s[1].topic == "homeassistant/sensor/oven_vision_"@ + slug + "_"@ + "level"@
                + "/config"@
            &&& has_led ==> s[2].topic == "homeassistant/sensor/oven_vision_"@ + slug + "_"@ + "mode"@
                + "/config"@
        }),
{
}

/// Unless all dials are unavailable each reports twice, in their order: whether it is on, and how
/// hot; one that is not on is off in both. The lamps follow, each with its mode. None of these is kept
/// by the broker.
pub proof fn dials_and_lamps_report_in_turn(
    readings: Seq<DialReading>,
    leds: Seq<(String, LedState)>,
    i: int,
    j: int,
)
    requires
        0 <= i < readings.len(),
        readings[i].state != DialState::Unavailable,
        0 <= j < leds.len(),
    ensures
        ({
            let r = report(readings, leds);
            let slug = slug_of(readings[i].label@);
            &&& r.len() == 2 * readings.len() + leds.len()
            &&& r[2 * i].topic == "oven_vision/"@ + slug + "/state"@
            &&& r[2 * i].payload == if readings[i].state == DialState::Off {
                "OFF"@
            } else {
                "ON"@
            }
            &&& !r[2 * i].retain
            &&& r[2 * i + 1].topic == "oven_vision/"@ + slug + "/level"@
            &&& readings[i].state == DialState::Off ==> r[2 * i + 1].payload == "off"@
            &&& readings[i].state matches DialState::On(level) ==> r[2 * i + 1].payload
                == level.spec_text()
            &&& !r[2 * i + 1].retain
            &&& r[2 * readings.len() + j].topic == "oven_vision/"@ + slug_of(leds[j].0@) + "/mode"@
            &&& r[2 * readings.len() + j].payload == leds[j].1.spec_text()
            &&& !r[2 * readings.len() + j].retain
        }),
{
    dial_reports_come_in_pairs(readings, i);
    assert(!all_unavailable(readings)) by {
        if all_unavailable(readings) {
            assert(readings[i].state == DialState::Unavailable);
        }
    }
}

proof fn dial_reports_come_in_pairs(readings: Seq<DialReading>, i: int)
    requires
        0 <= i < readings.len(),
    ensures
        dial_reports(readings).len() == 2 * readings.len(),
        dial_reports(readings)[2 * i] == dial_report(
            slug_of(readings[i].label@),
            readings[i].state,
        )[0],
        dial_reports(readings)[2 * i + 1] == dial_report(
            slug_of(readings[i].label@),
            readings[i].state,
        )[1],
    decreases readings.len(),
{
    dial_reports_are_twice_as_many(readings.drop_last());
    if i < readings.len() - 1 {
        dial_reports_come_in_pairs(readings.drop_last(), i);
    }
}

proof fn dial_reports_are_twice_as_many(readings: Seq<DialReading>)
    ensures
        dial_reports(readings).len() == 2 * readings.len(),
    decreases readings.len(),
{
    if readings.len() > 0 {
        dial_reports_are_twice_as_many(readings.drop_last());
    }
}

/// Where all dials are unavailable there is one message, which is kept: that the stove is offline.
pub proof fn a_hidden_stove_is_offline(readings: Seq<DialReading>, leds: Seq<(String, LedState)>)
    requires
        forall|i: int|
            0 <= i < readings.len() ==> (#[trigger] readings[i]).state == DialState::Unavailable,
    ensures
        report(readings, leds) == seq![
            MessageView {
                topic: "oven_vision/availability"@,
                payload: "offline"@,
                retain: true,
            },
        ],
{
}


/// A connection goes where the settings say, under its own name, and logs in exactly if both a user
/// and a password are known. If it breaks, the stove is announced as offline for good.
pub proof fn connections_go_where_settings_say(c: Connection, config: &MqttConfig)
    requires
        c.follows(config),
    ensures
        c.client_id@ == "oven-vision"@,
        c.host@ == config.host@,
        c.port == config.port,
        c.keepalive_secs == config.keepalive_secs,
        c.capacity == 10,
        c.credentials is Some <==> config.user is Some && config.pass is Some,
        c.credentials matches Some(p) ==> p.0@ == config.user->Some_0@ && p.1@
            == config.pass->Some_0@,
        c.last_will@ == (MessageView {
            topic: "oven_vision/availability"@,
            payload: "offline"@,
            retain: true,
        }),
{
}

} // verus!
