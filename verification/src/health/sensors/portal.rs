//! The sensor for sessions of the desktop portal.
use vstd::prelude::*;
use crate::health::sensors::{
    flag, gated_signal, names_of, plain_signal, signal, signal_models, signal_names, to_flag,
    versioned_signal, HealthSensor, MetricType, ProtocolLayer, SensorModel, SensorSnapshot,
    SignalDescriptor, SignalModel, SignalValue,
};
use crate::numbers::decimal;
use crate::text_map::TextMap;

verus! {

/// The signals of a portal version: the clipboard from 2 on, restoring from 4 on.
pub open spec fn portal_signals(version: u32) -> Seq<SignalModel> {
    let basic = seq![
        plain_signal(
            "portal_session_valid"@,
            MetricType::Gauge,
            "Whether portal session is valid (1=yes, 0=no)"@,
        ),
        plain_signal(
            "portal_version"@,
            MetricType::Gauge,
            "Portal ScreenCast/RemoteDesktop API version"@,
        ),
    ];
    let with_clipboard = if version >= 2 {
        basic.push(
            gated_signal(
                "portal_clipboard_available"@,
                MetricType::Gauge,
                "Whether portal clipboard is available"@,
                "2"@,
            ),
        )
    } else {
        basic
    };
    if version >= 4 {
        with_clipboard.push(
            gated_signal(
                "portal_restore_available"@,
                MetricType::Gauge,
                "Whether session restore tokens are supported"@,
                "4"@,
            ),
        )
    } else {
        with_clipboard
    }
}

/// The values of a portal version and a session.
pub open spec fn portal_values(version: u32, valid: bool) -> Map<Seq<char>, SignalValue> {
    let basic = Map::<Seq<char>, SignalValue>::empty().insert(
        "portal_session_valid"@,
        flag(valid),
    ).insert("portal_version"@, SignalValue::Unsigned(version as u64));
    let with_clipboard = if version >= 2 {
        basic.insert("portal_clipboard_available"@, SignalValue::Unsigned(1))
    } else {
        basic
    };
    if version >= 4 {
        with_clipboard.insert("portal_restore_available"@, SignalValue::Unsigned(1))
    } else {
        with_clipboard
    }
}

/// The name of a portal version.
pub open spec fn portal_version_name(version: u32) -> Seq<char> {
    if version == 1 {
        "1"@
    } else if version == 2 {
        "2"@
    } else if version == 3 {
        "3"@
    } else if version == 4 {
        "4"@
    } else if version == 5 {
        "5"@
    } else {
        "unknown"@
    }
}

/// The sensor for sessions of the desktop portal.
pub struct PortalSensor {
    portal_version: u32,
    signals: Vec<SignalDescriptor>,
    session_valid: bool,
    clipboard_supported: bool,
    restore_supported: bool,
}

impl PortalSensor {
    pub closed spec fn own_signals(&self) -> Seq<SignalModel> {
        signal_models(self.signals@)
    }

    pub closed spec fn current_values(&self) -> Map<Seq<char>, SignalValue> {
        let basic = Map::<Seq<char>, SignalValue>::empty().insert(
            "portal_session_valid"@,
            flag(self.session_valid),
        ).insert("portal_version"@, SignalValue::Unsigned(self.portal_version as u64));
        let with_clipboard = if self.clipboard_supported {
            basic.insert("portal_clipboard_available"@, SignalValue::Unsigned(1))
        } else {
            basic
        };
        if self.restore_supported {
            with_clipboard.insert("portal_restore_available"@, SignalValue::Unsigned(1))
        } else {
            with_clipboard
        }
    }

    pub closed spec fn portal(&self) -> u32 {
        self.portal_version
    }

    pub closed spec fn valid(&self) -> bool {
        self.session_valid
    }

    /// The features are those of the version.
    #[verifier::type_invariant]
    spec fn well_formed(&self) -> bool {
        &&& self.clipboard_supported == (self.portal_version >= 2)
        &&& self.restore_supported == (self.portal_version >= 4)
        &&& signal_models(self.signals@) == portal_signals(self.portal_version)
    }

    /// A sensor for a valid session.
    pub fn new(portal_version: u32) -> (sensor: Self)
        ensures
            sensor.portal() == portal_version,
            sensor.valid(),
            sensor.model().signals == portal_signals(portal_version),
            sensor.model().values == portal_values(portal_version, true),
    {
        let mut signals: Vec<SignalDescriptor> = Vec::new();
        signals.push(
            signal(
                "portal_session_valid",
                MetricType::Gauge,
                "Whether portal session is valid (1=yes, 0=no)",
            ),
        );
        signals.push(
            signal(
                "portal_version",
                MetricType::Gauge,
                "Portal ScreenCast/RemoteDesktop API version",
            ),
        );
        let clipboard_supported: bool = portal_version >= 2;
        if clipboard_supported {
            signals.push(
                versioned_signal(
                    "portal_clipboard_available",
                    MetricType::Gauge,
                    "Whether portal clipboard is available",
                    "2",
                ),
            );
        }
        let restore_supported: bool = portal_version >= 4;
        if restore_supported {
            signals.push(
                versioned_signal(
                    "portal_restore_available",
                    MetricType::Gauge,
                    "Whether session restore tokens are supported",
                    "4",
                ),
            );
        }
        assert(signal_models(signals@) =~= portal_signals(portal_version));
        PortalSensor {
            portal_version,
            signals,
            session_valid: true,
            clipboard_supported,
            restore_supported,
        }
    }

    /// The session is gone. It does not become valid again.
    pub fn set_session_invalid(&mut self)
        ensures
            !final(self).valid(),
            final(self).portal() == old(self).portal(),
            final(self).model().signals == old(self).model().signals,
            final(self).model().values == portal_values(old(self).portal(), false),
    {
        proof {
            use_type_invariant(&*self);
        }
        self.session_valid = false;
    }
}

impl HealthSensor for PortalSensor {
    open spec fn model(&self) -> SensorModel {
        SensorModel {
            layer: ProtocolLayer::Portal,
            version: portal_version_name(self.portal()),
            signals: self.own_signals(),
            values: self.current_values(),
        }
    }

    fn layer(&self) -> (layer: ProtocolLayer) {
        ProtocolLayer::Portal
    }

    fn version(&self) -> (version: &str) {
        match self.portal_version {
            1 => "1",
            2 => "2",
            3 => "3",
            4 => "4",
            5 => "5",
            _ => "unknown",
        }
    }

    fn available_signals(&self) -> (signals: &[SignalDescriptor]) {
        self.signals.as_slice()
    }

    fn snapshot(&self) -> (snapshot: SensorSnapshot) {
        proof {
            use_type_invariant(self);
            let names = signal_names(portal_signals(self.portal_version));
            assert(names[0] == "portal_session_valid"@);
            assert(names[1] == "portal_version"@);
            if self.portal_version >= 2 {
                assert(names[2] == "portal_clipboard_available"@);
            }
            if self.portal_version >= 4 {
                assert(names[3] == "portal_restore_available"@);
            }
        }
        let mut values: TextMap<SignalValue> = TextMap::new();
        values.insert("portal_session_valid".to_owned(), to_flag(self.session_valid));
        values.insert(
            "portal_version".to_owned(),
            SignalValue::Unsigned(self.portal_version as u64),
        );
        if self.clipboard_supported {
            values.insert("portal_clipboard_available".to_owned(), SignalValue::Unsigned(1));
        }
        if self.restore_supported {
            values.insert("portal_restore_available".to_owned(), SignalValue::Unsigned(1));
        }
        SensorSnapshot {
            layer: ProtocolLayer::Portal,
            version: self.version().to_owned(),
            values,
            available_signals: names_of(&self.signals),
        }
    }
}

/// A newer portal never has fewer signals.
pub proof fn lemma_newer_portals_keep_signals(older: u32, newer: u32)
    requires
        older <= newer,
    ensures
        portal_signals(older).is_prefix_of(portal_signals(newer)),
{
    let kept = portal_signals(older);
    assert(portal_signals(newer).subrange(0, kept.len() as int) =~= kept);
}

/// The sensor shows the session and its version in any case, the clipboard from version 2
/// on and restoring from version 4 on.
pub proof fn lemma_the_portal_is_shown(version: u32, valid: bool)
    ensures
        ({
            let values = portal_values(version, valid);
            &&& values.contains_key("portal_session_valid"@) && values["portal_session_valid"@]
                == SignalValue::Unsigned(if valid { 1 } else { 0 })
            &&& values.contains_key("portal_version"@) && values["portal_version"@]
                == SignalValue::Unsigned(version as u64)
            &&& values.contains_key("portal_clipboard_available"@) <==> version >= 2
            &&& version >= 2 ==> values["portal_clipboard_available"@] == SignalValue::Unsigned(1)
            &&& values.contains_key("portal_restore_available"@) <==> version >= 4
            &&& version >= 4 ==> values["portal_restore_available"@] == SignalValue::Unsigned(1)
        }),
{
    reveal_strlit("portal_session_valid");
    reveal_strlit("portal_version");
    reveal_strlit("portal_clipboard_available");
    reveal_strlit("portal_restore_available");
    assert("portal_session_valid"@.len() == 20 && "portal_version"@.len() == 14);
    assert("portal_clipboard_available"@.len() == 26 && "portal_restore_available"@.len() == 24);
}

/// A version has a signal for each of its values.
pub proof fn lemma_signals_of_a_portal(version: u32, valid: bool, name: Seq<char>)
    ensures
        portal_values(version, valid).contains_key(name) <==> signal_names(
            portal_signals(version),
        ).contains(name),
        portal_signals(version).len() == 2 + (if version >= 2 { 1int } else { 0 }) + if version
            >= 4 { 1int } else { 0 },
        forall|i: int|
            0 <= i < portal_signals(version).len() ==> (#[trigger] portal_signals(
                version,
            )[i]).metric_type == MetricType::Gauge,
        portal_signals(version)[0].min_version is None,
        portal_signals(version)[1].min_version is None,
        version >= 2 ==> portal_signals(version)[2].min_version == Some("2"@),
        version >= 4 ==> portal_signals(version)[3].min_version == Some("4"@),
{
    let names = signal_names(portal_signals(version));
    assert(names[0] == "portal_session_valid"@ && names[1] == "portal_version"@);
    if version >= 2 {
        assert(names[2] == "portal_clipboard_available"@);
    }
    if version >= 4 {
        assert(names[3] == "portal_restore_available"@);
    }
}

/// The five known versions are named by their number.
pub proof fn lemma_portal_version_names(version: u32)
    ensures
        1 <= version <= 5 ==> portal_version_name(version) == decimal(version as nat),
        version == 0 || version > 5 ==> portal_version_name(version) == "unknown"@,
{
    reveal_strlit("1");
    reveal_strlit("2");
    reveal_strlit("3");
    reveal_strlit("4");
    reveal_strlit("5");
    assert("1"@ =~= decimal(1));
    assert("2"@ =~= decimal(2));
    assert("3"@ =~= decimal(3));
    assert("4"@ =~= decimal(4));
    assert("5"@ =~= decimal(5));
}

} // verus!
