//! The sensor for sessions on Mutter's own interfaces.
use vstd::prelude::*;
use crate::health::sensors::{
    flag, names_of, plain_signal, signal, signal_models, signal_names, to_flag, HealthSensor,
    MetricType, ProtocolLayer, SensorModel, SensorSnapshot, SignalDescriptor, SignalModel,
    SignalValue,
};
use crate::numbers::decimal;
use crate::text_map::TextMap;

verus! {

/// The signals, whatever the versions.
pub open spec fn mutter_signals() -> Seq<SignalModel> {
    seq![
        plain_signal(
            "mutter_session_valid"@,
            MetricType::Gauge,
            "Whether Mutter session is valid (1=yes, 0=no)"@,
        ),
        plain_signal(
            "mutter_screencast_version"@,
            MetricType::Gauge,
            "Mutter ScreenCast API version"@,
        ),
        plain_signal(
            "mutter_remote_desktop_version"@,
            MetricType::Gauge,
            "Mutter RemoteDesktop API version"@,
        ),
        plain_signal(
            "mutter_supported_device_types"@,
            MetricType::Gauge,
            "Bitmask of supported input device types"@,
        ),
    ]
}

/// The name of a remote desktop version.
pub open spec fn remote_desktop_name(version: i32) -> Seq<char> {
    if version == 1 {
        "mutter-rd-1"@
    } else if version == 2 {
        "mutter-rd-2"@
    } else if version == 3 {
        "mutter-rd-3"@
    } else {
        "mutter-rd-unknown"@
    }
}

/// The sensor for sessions on Mutter's own interfaces.
pub struct MutterSensor {
    screencast_version: i32,
    remote_desktop_version: i32,
    signals: Vec<SignalDescriptor>,
    session_valid: bool,
    supported_device_types: u32,
}

impl MutterSensor {
    pub closed spec fn own_signals(&self) -> Seq<SignalModel> {
        signal_models(self.signals@)
    }

    pub open spec fn current_values(&self) -> Map<Seq<char>, SignalValue> {
        Map::<Seq<char>, SignalValue>::empty().insert("mutter_session_valid"@, flag(self.valid()))
            .insert(
            "mutter_screencast_version"@,
            SignalValue::Signed(self.screencast() as i64),
        ).insert(
            "mutter_remote_desktop_version"@,
            SignalValue::Signed(self.remote_desktop() as i64),
        ).insert(
            "mutter_supported_device_types"@,
            SignalValue::Unsigned(self.device_types() as u64),
        )
    }

    pub closed spec fn screencast(&self) -> i32 {
        self.screencast_version
    }

    pub closed spec fn remote_desktop(&self) -> i32 {
        self.remote_desktop_version
    }

    pub closed spec fn valid(&self) -> bool {
        self.session_valid
    }

    pub closed spec fn device_types(&self) -> u32 {
        self.supported_device_types
    }

    #[verifier::type_invariant]
    spec fn well_formed(&self) -> bool {
        signal_models(self.signals@) == mutter_signals()
    }

    /// A sensor for a valid session.
    pub fn new(
        screencast_version: i32,
        remote_desktop_version: i32,
        supported_device_types: u32,
    ) -> (sensor: Self)
        ensures
            sensor.screencast() == screencast_version,
            sensor.remote_desktop() == remote_desktop_version,
            sensor.device_types() == supported_device_types,
            sensor.valid(),
            sensor.model().signals == mutter_signals(),
    {
        let mut signals: Vec<SignalDescriptor> = Vec::new();
        signals.push(
            signal(
                "mutter_session_valid",
                MetricType::Gauge,
                "Whether Mutter session is valid (1=yes, 0=no)",
            ),
        );
        signals.push(
            signal(
                "mutter_screencast_version",
                MetricType::Gauge,
                "Mutter ScreenCast API version",
            ),
        );
        signals.push(
            signal(
                "mutter_remote_desktop_version",
                MetricType::Gauge,
                "Mutter RemoteDesktop API version",
            ),
        );
        signals.push(
            signal(
                "mutter_supported_device_types",
                MetricType::Gauge,
                "Bitmask of supported input device types",
            ),
        );
        assert(signal_models(signals@) =~= mutter_signals());
        MutterSensor {
            screencast_version,
            remote_desktop_version,
            signals,
            session_valid: true,
            supported_device_types,
        }
    }

    /// The session is gone. It does not become valid again.
    pub fn set_session_invalid(&mut self)
        ensures
            !final(self).valid(),
            final(self).screencast() == old(self).screencast(),
            final(self).remote_desktop() == old(self).remote_desktop(),
            final(self).device_types() == old(self).device_types(),
            final(self).model().signals == old(self).model().signals,
    {
        proof {
            use_type_invariant(&*self);
        }
        self.session_valid = false;
    }
}

impl HealthSensor for MutterSensor {
    open spec fn model(&self) -> SensorModel {
        SensorModel {
            layer: ProtocolLayer::Portal,
            version: remote_desktop_name(self.remote_desktop()),
            signals: self.own_signals(),
            values: self.current_values(),
        }
    }

    fn layer(&self) -> (layer: ProtocolLayer) {
        ProtocolLayer::Portal
    }

    fn version(&self) -> (version: &str) {
        match self.remote_desktop_version {
            1 => "mutter-rd-1",
            2 => "mutter-rd-2",
            3 => "mutter-rd-3",
            _ => "mutter-rd-unknown",
        }
    }

    fn available_signals(&self) -> (signals: &[SignalDescriptor]) {
        self.signals.as_slice()
    }

    fn snapshot(&self) -> (snapshot: SensorSnapshot) {
        proof {
            use_type_invariant(self);
            let names = signal_names(mutter_signals());
            assert(names[0] == "mutter_session_valid"@);
            assert(names[1] == "mutter_screencast_version"@);
            assert(names[2] == "mutter_remote_desktop_version"@);
            assert(names[3] == "mutter_supported_device_types"@);
        }
        let mut values: TextMap<SignalValue> = TextMap::new();
        values.insert("mutter_session_valid".to_owned(), to_flag(self.session_valid));
        values.insert(
            "mutter_screencast_version".to_owned(),
            SignalValue::Signed(self.screencast_version as i64),
        );
        values.insert(
            "mutter_remote_desktop_version".to_owned(),
            SignalValue::Signed(self.remote_desktop_version as i64),
        );
        values.insert(
            "mutter_supported_device_types".to_owned(),
            SignalValue::Unsigned(self.supported_device_types as u64),
        );
        SensorSnapshot {
            layer: ProtocolLayer::Portal,
            version: self.version().to_owned(),
            values,
            available_signals: names_of(&self.signals),
        }
    }
}

/// The sensor shows the session, each value under its own name.
pub proof fn lemma_the_session_is_shown(sensor: MutterSensor)
    ensures
        ({
            let values = sensor.current_values();
            &&& values.contains_key("mutter_session_valid"@) && values["mutter_session_valid"@]
                == SignalValue::Unsigned(if sensor.valid() { 1 } else { 0 })
            &&& values.contains_key("mutter_screencast_version"@)
                && values["mutter_screencast_version"@] == SignalValue::Signed(
                sensor.screencast() as i64,
            )
            &&& values.contains_key("mutter_remote_desktop_version"@)
                && values["mutter_remote_desktop_version"@] == SignalValue::Signed(
                sensor.remote_desktop() as i64,
            )
            &&& values.contains_key("mutter_supported_device_types"@)
                && values["mutter_supported_device_types"@] == SignalValue::Unsigned(
                sensor.device_types() as u64,
            )
        }),
{
    reveal_strlit("mutter_session_valid");
    reveal_strlit("mutter_screencast_version");
    reveal_strlit("mutter_remote_desktop_version");
    reveal_strlit("mutter_supported_device_types");
    assert("mutter_session_valid"@.len() == 20 && "mutter_screencast_version"@.len() == 25);
    assert("mutter_remote_desktop_version"@.len() == 29 && "mutter_remote_desktop_version"@[7]
        == 'r');
    assert("mutter_supported_device_types"@.len() == 29 && "mutter_supported_device_types"@[7]
        == 's');
}

/// The three known versions are named by their number.
pub proof fn lemma_remote_desktop_names(version: i32)
    ensures
        1 <= version <= 3 ==> remote_desktop_name(version) == "mutter-rd-"@ + decimal(
            version as nat,
        ),
        version < 1 || version > 3 ==> remote_desktop_name(version) == "mutter-rd-unknown"@,
{
    reveal_strlit("mutter-rd-");
    reveal_strlit("mutter-rd-1");
    reveal_strlit("mutter-rd-2");
    reveal_strlit("mutter-rd-3");
    assert("mutter-rd-1"@ =~= "mutter-rd-"@ + decimal(1));
    assert("mutter-rd-2"@ =~= "mutter-rd-"@ + decimal(2));
    assert("mutter-rd-3"@ =~= "mutter-rd-"@ + decimal(3));
}

/// There is a signal for each value.
pub proof fn lemma_signals_of_mutter(sensor: MutterSensor, name: Seq<char>)
    ensures
        mutter_signals().len() == 4,
        forall|i: int|
            0 <= i < 4 ==> (#[trigger] mutter_signals()[i]).metric_type == MetricType::Gauge
                && mutter_signals()[i].min_version is None,
        sensor.current_values().contains_key(name) <==> signal_names(mutter_signals()).contains(
            name,
        ),
{
    let names = signal_names(mutter_signals());
    assert(names[0] == "mutter_session_valid"@ && names[1] == "mutter_screencast_version"@);
    assert(names[2] == "mutter_remote_desktop_version"@);
    assert(names[3] == "mutter_supported_device_types"@);
}

} // verus!
