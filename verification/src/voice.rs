//! The speech generators that a text can be sent to.

use vstd::prelude::*;
use vstd::string::StringExecFns;

verus! {

/// A VOICEVOX engine reached at `url`, speaking with one voice.
pub struct VoiceVoxAPI {
    url: String,
    voice_type: i64,
}

impl VoiceVoxAPI {
    /// The address of the engine.
    pub closed spec fn address(&self) -> Seq<char> {
        self.url@
    }

    /// The number of the voice.
    pub closed spec fn speaker(&self) -> i64 {
        self.voice_type
    }

    pub fn new(url: String, voice_type: i64) -> (api: Self)
        ensures
            api.address() == url@,
            api.speaker() == voice_type,
    {
        Self { url, voice_type }
    }

    /// The number of the voice.
    pub fn voice_type(&self) -> (v: i64)
        ensures
            v == self.speaker(),
    {
        self.voice_type
    }

    /// Where the engine is asked how to pronounce a text.
    pub fn audio_query_url(&self) -> (u: String)
        ensures
            u@ == self.address() + "/audio_query"@,
    {
        self.url.clone().concat("/audio_query")
    }

    /// Where the engine is asked for the sound of a pronunciation.
    pub fn synthesis_url(&self) -> (u: String)
        ensures
            u@ == self.address() + "/synthesis"@,
    {
        self.url.clone().concat("/synthesis")
    }
}

/// The VOICEVOX web service reached at `url` with a key, speaking with one voice.
pub struct WebVoiceVoxAPI {
    url: String,
    api_key: String,
    voice_type: i64,
}

impl WebVoiceVoxAPI {
    /// The address of the service.
    pub closed spec fn address(&self) -> Seq<char> {
        self.url@
    }

    /// The key that the service asks for.
    pub closed spec fn key(&self) -> Seq<char> {
        self.api_key@
    }

    /// The number of the voice.
    pub closed spec fn speaker(&self) -> i64 {
        self.voice_type
    }

    pub fn new(url: String, api_key: String, voice_type: i64) -> (api: Self)
        ensures
            api.address() == url@,
            api.key() == api_key@,
            api.speaker() == voice_type,
    {
        Self { url, api_key, voice_type }
    }

    /// The address of the service.
    pub fn url(&self) -> (u: &str)
        ensures
            u@ == self.address(),
    {
        self.url.as_str()
    }

    /// The key that the service asks for.
    pub fn api_key(&self) -> (k: &str)
        ensures
            k@ == self.key(),
    {
        self.api_key.as_str()
    }

    /// The number of the voice.
    pub fn voice_type(&self) -> (v: i64)
        ensures
            v == self.speaker(),
    {
        self.voice_type
    }
}

} // verus!
