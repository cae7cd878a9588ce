//! The audio profile of the platform: which codecs are offered, in which
//! order of preference, and how long a packet is.

use crate::codecs::CodecType;
use vstd::prelude::*;
use vstd::string::StringSliceAdditionalSpecFns;

verus! {

/// Packetisation time of every profile, in milliseconds.
pub const PTIME_MS: u8 = 20;

/// One codec as it is offered: its format, payload type, encoding name,
/// clock rate and format parameters.
#[derive(Clone, Debug)]
pub struct CodecConfig {
    pub codec: CodecType,
    pub payload_type: u8,
    pub name: &'static str,
    pub rate: u32,
    pub fmtp: Option<&'static str>,
}

/// The codecs on offer, most preferred first, and the packetisation time.
#[derive(Clone, Debug)]
pub struct AudioProfile {
    pub codecs: Vec<CodecConfig>,
    pub ptime: u8,
}

/// The built-in offer: G.729, then the two G.711 laws, then the slot for
/// telephone events.
pub open spec fn default_codecs() -> Seq<CodecConfig> {
    seq![
        CodecConfig {
            codec: CodecType::G729,
            payload_type: 18,
            name: "G729",
            rate: 8000,
            fmtp: Some("annexb=no"),
        },
        CodecConfig {
            codec: CodecType::PCMU,
            payload_type: 0,
            name: "PCMU",
            rate: 8000,
            fmtp: None,
        },
        CodecConfig {
            codec: CodecType::PCMA,
            payload_type: 8,
            name: "PCMA",
            rate: 8000,
            fmtp: None,
        },
        CodecConfig {
            codec: CodecType::TelephoneEvent,
            payload_type: 101,
            name: "telephone-event",
            rate: 8000,
            fmtp: Some("0-16"),
        },
    ]
}

/// Whether `at` is the first entry of `codecs` that `matches` holds of.
pub open spec fn is_first(
    codecs: Seq<CodecConfig>,
    at: int,
    matches: spec_fn(CodecConfig) -> bool,
) -> bool {
    &&& 0 <= at < codecs.len()
    &&& matches(codecs[at])
    &&& forall|i: int| 0 <= i < at ==> !matches(#[trigger] codecs[i])
}

/// Whether `matches` holds of no entry of `codecs`.
pub open spec fn has_none(codecs: Seq<CodecConfig>, matches: spec_fn(CodecConfig) -> bool) -> bool {
    forall|i: int| 0 <= i < codecs.len() ==> !matches(#[trigger] codecs[i])
}

/// `codecs` with the entry at `at` moved to the front.
pub open spec fn promoted(codecs: Seq<CodecConfig>, at: int) -> Seq<CodecConfig> {
    seq![codecs[at]] + codecs.remove(at)
}

/// The offer for a preferred encoding name: the built-in offer, with the
/// first entry of that name moved to the front if there is one.
pub open spec fn offer_for(preferred: Seq<char>, offer: Seq<CodecConfig>) -> bool {
    let named = |c: CodecConfig| c.name@ == preferred;
    ||| has_none(default_codecs(), named) && offer == default_codecs()
    ||| exists|at: int| is_first(default_codecs(), at, named) && offer == promoted(default_codecs(), at)
}

/// What `str::to_uppercase` makes of a text.
pub uninterp spec fn uppercase(text: Seq<char>) -> Seq<char>;

/// Calls `str::to_uppercase`, which maps every character to its upper-case
/// form as Unicode defines it. The result is a function of the text alone;
/// nothing else is claimed of it.
#[verifier::external_body]
fn to_uppercase(text: &str) -> (upper: String)
    ensures
        upper@ == uppercase(text@),
{
    text.to_uppercase()
}

/// Whether two texts are the same, decided on their UTF-8 bytes.
fn same_text(a: &str, b: &str) -> (same: bool)
    ensures
        same == (a@ == b@),
{
    let x = a.as_bytes();
    let y = b.as_bytes();
    proof {
        // Equal encodings decode to equal texts.
        vstd::utf8::encode_utf8_decode_utf8(a@);
        vstd::utf8::encode_utf8_decode_utf8(b@);
    }
    if x.len() != y.len() {
        return false;
    }
    let mut i: usize = 0;
    while i < x.len()
        invariant
            i <= x.len(),
            x.len() == y.len(),
            x@ == a.spec_bytes(),
            y@ == b.spec_bytes(),
            forall|j: int| 0 <= j < i ==> x[j] == y[j],
        decreases x.len() - i,
    {
        if x[i] != y[i] {
            return false;
        }
        i += 1;
    }
    assert(x@ =~= y@);
    true
}

fn builtin_codecs() -> (codecs: Vec<CodecConfig>)
    ensures
        codecs@ == default_codecs(),
{
    let mut codecs: Vec<CodecConfig> = Vec::with_capacity(4);
    codecs.push(
        CodecConfig {
            codec: CodecType::G729,
            payload_type: 18,
            name: "G729",
            rate: 8000,
            fmtp: Some("annexb=no"),
        },
    );
    codecs.push(
        CodecConfig {
            codec: CodecType::PCMU,
            payload_type: 0,
            name: "PCMU",
            rate: 8000,
            fmtp: None,
        },
    );
    codecs.push(
        CodecConfig {
            codec: CodecType::PCMA,
            payload_type: 8,
            name: "PCMA",
            rate: 8000,
            fmtp: None,
        },
    );
    codecs.push(
        CodecConfig {
            codec: CodecType::TelephoneEvent,
            payload_type: 101,
            name: "telephone-event",
            rate: 8000,
            fmtp: Some("0-16"),
        },
    );
    assert(codecs@ =~= default_codecs());
    codecs
}

impl Default for AudioProfile {
    /// The built-in offer in its own order.
    fn default() -> (profile: AudioProfile)
        ensures
            profile.codecs@ == default_codecs(),
            profile.ptime == 20,
    {
        AudioProfile { codecs: builtin_codecs(), ptime: PTIME_MS }
    }
}

impl AudioProfile {
    /// The profile that prefers the codec of the given encoding name, which
    /// is compared as it stands. A name that the built-in offer does not hold
    /// leaves the offer in its own order.
    pub fn with_preferred(preferred: &str) -> (profile: AudioProfile)
        ensures
            offer_for(preferred@, profile.codecs@),
            profile.ptime == 20,
    {
        let mut codecs = builtin_codecs();
        let ghost named = |c: CodecConfig| c.name@ == preferred@;
        let mut i: usize = 0;
        while i < codecs.len()
            invariant
                i <= codecs.len(),
                codecs@ == default_codecs(),
                named == (|c: CodecConfig| c.name@ == preferred@),
                forall|j: int| 0 <= j < i ==> !named(#[trigger] codecs[j]),
            decreases codecs.len() - i,
        {
            if same_text(codecs[i].name, preferred) {
                assert(is_first(default_codecs(), i as int, named));
                let chosen = codecs.remove(i);
                codecs.insert(0, chosen);
                assert(codecs@ =~= promoted(default_codecs(), i as int));
                return AudioProfile { codecs, ptime: PTIME_MS };
            }
            i += 1;
        }
        assert(has_none(default_codecs(), named));
        AudioProfile { codecs, ptime: PTIME_MS }
    }

    /// The profile for a preference as configured: the name is put in upper
    /// case and then looked up.
    pub fn from_preference(preference: &str) -> (profile: AudioProfile)
        ensures
            offer_for(uppercase(preference@), profile.codecs@),
            profile.ptime == 20,
    {
        let upper = to_uppercase(preference);
        Self::with_preferred(upper.as_str())
    }

    /// The codec to use for audio: that of the first entry that is not the
    /// telephone-event slot, or mu-law if there is none.
    pub fn preferred_audio_codec(&self) -> (codec: CodecType)
        ensures
            ({
                let audio = |c: CodecConfig| c.codec != CodecType::TelephoneEvent;
                ||| has_none(self.codecs@, audio) && codec == CodecType::PCMU
                ||| exists|at: int| is_first(self.codecs@, at, audio) && codec == self.codecs[at].codec
            }),
    {
        let ghost audio = |c: CodecConfig| c.codec != CodecType::TelephoneEvent;
        let mut i: usize = 0;
        while i < self.codecs.len()
            invariant
                i <= self.codecs.len(),
                audio == (|c: CodecConfig| c.codec != CodecType::TelephoneEvent),
                forall|j: int| 0 <= j < i ==> !audio(#[trigger] self.codecs[j]),
            decreases self.codecs.len() - i,
        {
            match self.codecs[i].codec {
                CodecType::TelephoneEvent => {},
                codec => {
                    assert(is_first(self.codecs@, i as int, audio));
                    return codec;
                },
            }
            i += 1;
        }
        assert(has_none(self.codecs@, audio));
        CodecType::PCMU
    }

    /// The first entry offered under payload type `pt`, if there is one.
    pub fn get_by_payload(&self, pt: u8) -> (config: Option<CodecConfig>)
        ensures
            ({
                let typed = |c: CodecConfig| c.payload_type == pt;
                match config {
                    Some(c) => exists|at: int| is_first(self.codecs@, at, typed) && c == self.codecs[at],
                    None => has_none(self.codecs@, typed),
                }
            }),
    {
        let ghost typed = |c: CodecConfig| c.payload_type == pt;
        let mut i: usize = 0;
        while i < self.codecs.len()
            invariant
                i <= self.codecs.len(),
                typed == (|c: CodecConfig| c.payload_type == pt),
                forall|j: int| 0 <= j < i ==> !typed(#[trigger] self.codecs[j]),
            decreases self.codecs.len() - i,
        {
            if self.codecs[i].payload_type == pt {
                assert(is_first(self.codecs@, i as int, typed));
                let found = &self.codecs[i];
                return Some(
                    CodecConfig {
                        codec: found.codec,
                        payload_type: found.payload_type,
                        name: found.name,
                        rate: found.rate,
                        fmtp: found.fmtp,
                    },
                );
            }
            i += 1;
        }
        assert(has_none(self.codecs@, typed));
        None
    }
}

} // verus!
