//! Notices that have to be shown for software of others.
use vstd::prelude::*;
use vstd::string::StringExecFns;

verus! {

/// Attribution that the OpenH264 binary license asks for, wherever a user controls
/// the codec.
pub const OPENH264_ATTRIBUTION: &'static str =
    "OpenH264 Video Codec provided by Cisco Systems, Inc.";

/// Where a user gets the OpenH264 binary.
pub const OPENH264_RELEASES_URL: &'static str = "https://github.com/cisco/openh264/releases";

/// The notices, with the full text of the OpenH264 binary license at their end.
pub fn notices(openh264_binary_license: &str) -> (text: String)
    ensures
        text@
            == "lamco-rdp-server third-party license notices\n============================================\n\nThis product can use the OpenH264 Video Codec for software H.264\nencoding. "@
            + OPENH264_ATTRIBUTION@
            + "\n\nCisco's OpenH264 binary is downloaded and installed separately by the\nuser; it is not bundled with, compiled into, or auto-downloaded by this\nsoftware. Obtain it from your distribution's package or from\n"@
            + OPENH264_RELEASES_URL@
            + ".\n\nThe full Cisco OpenH264 binary license follows.\n\n--------------------------------------------------------------------\n"@
            + openh264_binary_license@,
{
    let mut text: String =
        "lamco-rdp-server third-party license notices\n============================================\n\nThis product can use the OpenH264 Video Codec for software H.264\nencoding. ".to_owned();
    text.append(OPENH264_ATTRIBUTION);
    text.append(
        "\n\nCisco's OpenH264 binary is downloaded and installed separately by the\nuser; it is not bundled with, compiled into, or auto-downloaded by this\nsoftware. Obtain it from your distribution's package or from\n",
    );
    text.append(OPENH264_RELEASES_URL);
    text.append(
        ".\n\nThe full Cisco OpenH264 binary license follows.\n\n--------------------------------------------------------------------\n",
    );
    text.append(openh264_binary_license);
    text
}

} // verus!
