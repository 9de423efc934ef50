//! Speech output: voice selection, the answers of the speech server, archive names and
//! replay paths.
use vstd::prelude::*;
use vstd::string::*;
use crate::config::{TTSConfig, VoiceConfig};
use crate::keyed::assoc_get;
use crate::text::{chars_of, format_padded, matches_at, occurs_at, padded, push_char, str_eq};

verus! {

/// The audio files spoken for one message.
pub struct TTSMeta {
    pub audio_files: Vec<TTSAudioFile>,
}

/// One audio file: its place in the message, its path and its text.
pub struct TTSAudioFile {
    pub seq: u32,
    pub path: String,
    pub text: String,
}

/// Bits of the 32-bit float 1.0.
pub const SPEED_ONE_BITS: u32 = 0x3f80_0000;

/// The voice parameters sent to the speech server: speaker, emotion, emotion control
/// method, and speed (bits of a 32-bit float).
pub struct VoiceParams {
    pub speaker: String,
    pub emo: String,
    pub emo_method: String,
    pub speed_bits: u32,
}

/// The parameters of a configured voice: a missing method is the description-text
/// method, a missing speed is 1.0.
pub open spec fn params_of(v: VoiceConfig) -> (Seq<char>, Seq<char>, Seq<char>, u32) {
    (
        v.speaker@,
        v.emo@,
        match v.emo_method {
            Some(m) => m@,
            None => "使用情感描述文本控制"@,
        },
        match v.speed_bits {
            Some(b) => b,
            None => SPEED_ONE_BITS,
        },
    )
}

/// The parameters used to speak: the requested voice when it is registered, else the
/// default voice when it is registered, else 苏瑶 with the 高兴 emotion at speed 1.0.
pub open spec fn voice_params(tts: TTSConfig, voice_id: Option<Seq<char>>) -> (
    Seq<char>,
    Seq<char>,
    Seq<char>,
    u32,
) {
    let chosen = match voice_id {
        Some(id) => assoc_get(tts.voices@, id),
        None => None,
    };
    match chosen {
        Some(v) => params_of(v),
        None => match assoc_get(tts.voices@, tts.default_voice_id@) {
            Some(d) => params_of(d),
            None => ("苏瑶"@, "高兴.wav"@, "使用情感描述文本控制"@, SPEED_ONE_BITS),
        },
    }
}

fn params_from(v: &VoiceConfig) -> (p: VoiceParams)
    ensures
        (p.speaker@, p.emo@, p.emo_method@, p.speed_bits) == params_of(*v),
{
    VoiceParams {
        speaker: v.speaker.clone(),
        emo: v.emo.clone(),
        emo_method: match &v.emo_method {
            Some(m) => m.clone(),
            None => String::from_str("使用情感描述文本控制"),
        },
        speed_bits: match v.speed_bits {
            Some(b) => b,
            None => SPEED_ONE_BITS,
        },
    }
}

/// The parameters used to speak (see [`voice_params`]).
pub fn resolve_voice(tts: &TTSConfig, voice_id: Option<&str>) -> (p: VoiceParams)
    ensures
        (p.speaker@, p.emo@, p.emo_method@, p.speed_bits) == voice_params(
            *tts,
            match voice_id {
                Some(id) => Some(id@),
                None => None,
            },
        ),
{
    let chosen = match voice_id {
        Some(id) => tts.voices.get(id),
        None => None,
    };
    match chosen {
        Some(v) => params_from(v),
        None => match tts.voices.get(tts.default_voice_id.as_str()) {
            Some(d) => params_from(d),
            None => VoiceParams {
                speaker: String::from_str("苏瑶"),
                emo: String::from_str("高兴.wav"),
                emo_method: String::from_str("使用情感描述文本控制"),
                speed_bits: SPEED_ONE_BITS,
            },
        },
    }
}

/// The absence of a key among the registered voices.
proof fn lemma_voice_absent(tts: TTSConfig, id: Seq<char>)
    requires
        forall|j: int| 0 <= j < tts.voices@.len() ==> (#[trigger] tts.voices@[j]).0@ != id,
    ensures
        assoc_get(tts.voices@, id) is None,
{
    crate::keyed::lemma_key_index_bounds(tts.voices@, id);
}

/// Which voice speaks. With each voice id registered once:
/// - a requested voice that is registered speaks with its own speaker, emotion, method
///   (the description-text method when it has none) and speed (1.0 when it has none);
/// - otherwise the registered default voice speaks, with its parameters read the same way;
/// - when neither is registered, 苏瑶 speaks with 高兴.wav, the description-text method
///   and speed 1.0.
pub proof fn lemma_voice_choice(tts: TTSConfig, voice_id: Option<Seq<char>>, i: int)
    requires
        tts.voices.wf(),
    ensures
        ({
            let vs = tts.voices@;
            let own = |v: VoiceConfig|
                (
                    v.speaker@,
                    v.emo@,
                    match v.emo_method {
                        Some(m) => m@,
                        None => "使用情感描述文本控制"@,
                    },
                    match v.speed_bits {
                        Some(b) => b,
                        None => SPEED_ONE_BITS,
                    },
                );
            let requested = voice_id matches Some(id) && exists|j: int| 0 <= j < vs.len() && (#[trigger] vs[j]).0@ == id;
            &&& (voice_id matches Some(id) && 0 <= i < vs.len() && vs[i].0@ == id) ==> voice_params(tts, voice_id)
                == own(vs[i].1)
            &&& (!requested && 0 <= i < vs.len() && vs[i].0@ == tts.default_voice_id@) ==> voice_params(
                tts,
                voice_id,
            ) == own(vs[i].1)
            &&& (!requested && forall|j: int| 0 <= j < vs.len() ==> (#[trigger] vs[j]).0@ != tts.default_voice_id@)
                ==> voice_params(tts, voice_id) == ("苏瑶"@, "高兴.wav"@, "使用情感描述文本控制"@, SPEED_ONE_BITS)
        }),
{
    let vs = tts.voices@;
    if 0 <= i < vs.len() {
        crate::keyed::lemma_unique_get(vs, i);
    }
    match voice_id {
        Some(id) => {
            if !(exists|j: int| 0 <= j < vs.len() && (#[trigger] vs[j]).0@ == id) {
                lemma_voice_absent(tts, id);
            }
        },
        None => {},
    }
    if forall|j: int| 0 <= j < vs.len() ==> (#[trigger] vs[j]).0@ != tts.default_voice_id@ {
        lemma_voice_absent(tts, tts.default_voice_id@);
    }
}

/// Speech is refused when it is switched off, then when the text is empty.
pub fn check_speak_request(enabled: bool, text: &str) -> (r: Result<(), String>)
    ensures
        !enabled ==> (r matches Err(e) && e@ == "TTS is disabled"@),
        enabled && text@.len() == 0 ==> (r matches Err(e) && e@ == "Text is empty"@),
        enabled && text@.len() > 0 ==> r is Ok,
{
    if !enabled {
        return Err(String::from_str("TTS is disabled"));
    }
    if text.unicode_len() == 0 {
        return Err(String::from_str("Text is empty"));
    }
    Ok(())
}

/// The text with every occurrence of `pat` removed, scanning left to right
/// (`str::replace(pat, "")` for a non-empty `pat`).
pub open spec fn remove_all(s: Seq<char>, pat: Seq<char>) -> Seq<char>
    decreases s.len(),
{
    if s.len() == 0 || pat.len() == 0 {
        s
    } else if occurs_at(s, pat, 0) {
        remove_all(s.skip(pat.len() as int), pat)
    } else {
        seq![s[0]] + remove_all(s.skip(1), pat)
    }
}

/// The emotion description: the emotion's name without `.wav`.
pub fn emotion_text(emo: &str) -> (r: String)
    ensures
        r@ == remove_all(emo@, ".wav"@),
{
    let v = chars_of(emo);
    let pat = chars_of(".wav");
    proof {
        reveal_strlit(".wav");
    }
    let mut r = String::new();
    let mut i: usize = 0;
    let n = v.len();
    assert(v@.skip(0) =~= v@);
    while i < n
        invariant
            i <= n == v@.len(),
            v@ == emo@,
            pat@ == ".wav"@,
            pat@.len() > 0,
            remove_all(emo@, ".wav"@) == r@ + remove_all(v@.skip(i as int), ".wav"@),
        decreases n - i,
    {
        let ghost rest = v@.skip(i as int);
        let at = matches_at(v.as_slice(), pat.as_slice(), i);
        if at {
            assert(occurs_at(rest, pat@, 0)) by {
                assert(rest.subrange(0, pat@.len() as int) =~= v@.subrange(i as int, i + pat@.len()));
            }
            assert(rest.skip(pat@.len() as int) =~= v@.skip(i + pat@.len()));
            i = i + pat.len();
        } else {
            assert(!occurs_at(rest, pat@, 0)) by {
                if i + pat@.len() <= n {
                    assert(rest.subrange(0, pat@.len() as int) =~= v@.subrange(
                        i as int,
                        i + pat@.len(),
                    ));
                }
            }
            let ghost before = r@;
            push_char(&mut r, v[i]);
            assert(rest.skip(1) =~= v@.skip(i + 1));
            assert(r@ + remove_all(v@.skip(i + 1), ".wav"@) =~= before + (seq![v@[i as int]]
                + remove_all(v@.skip(i + 1), ".wav"@)));
            i = i + 1;
        }
    }
    assert(v@.skip(i as int) =~= Seq::<char>::empty());
    assert(r@ + Seq::<char>::empty() =~= r@);
    r
}

/// The text without trailing slashes.
pub open spec fn trim_slashes(s: Seq<char>) -> Seq<char>
    decreases s.len(),
{
    if s.len() > 0 && s.last() == '/' {
        trim_slashes(s.drop_last())
    } else {
        s
    }
}

/// Where the speech server put the audio: a path and a URL, each optional.
pub struct TtsFileData {
    pub path: Option<String>,
    pub url: Option<String>,
}

/// The audio address from the server's answer: the URL when given, else the server's
/// address (without trailing slashes), `/file=` and the path; each missing level of the
/// answer is an error.
pub open spec fn audio_url_result(base_url: Seq<char>, output: Option<Option<TtsFileData>>) -> Result<
    Seq<char>,
    Seq<char>,
> {
    match output {
        None => Err("No output in response"@),
        Some(None) => Err("No output_1 in response"@),
        Some(Some(fd)) => match fd.url {
            Some(u) => Ok(u@),
            None => match fd.path {
                Some(p) => Ok(trim_slashes(base_url) + "/file="@ + p@),
                None => Err("No audio URL or path in response"@),
            },
        },
    }
}

/// The audio address from the server's answer (see [`audio_url_result`]).
pub fn audio_url(base_url: &str, output: Option<Option<TtsFileData>>) -> (r: Result<String, String>)
    ensures
        match (r, audio_url_result(base_url@, output)) {
            (Ok(a), Ok(b)) => a@ == b,
            (Err(a), Err(b)) => a@ == b,
            _ => false,
        },
{
    match output {
        None => Err(String::from_str("No output in response")),
        Some(None) => Err(String::from_str("No output_1 in response")),
        Some(Some(fd)) => match fd.url {
            Some(u) => Ok(u),
            None => match fd.path {
                Some(p) => {
                    let v = chars_of(base_url);
                    let mut end = v.len();
                    assert(v@.take(end as int) =~= v@);
                    while end > 0 && v[end - 1] == '/'
                        invariant
                            end <= v@.len(),
                            trim_slashes(base_url@) == trim_slashes(v@.take(end as int)),
                            v@ == base_url@,
                        decreases end,
                    {
                        assert(v@.take(end as int).drop_last() =~= v@.take(end - 1));
                        end = end - 1;
                    }
                    assert(trim_slashes(v@.take(end as int)) == v@.take(end as int));
                    let mut s = crate::text::string_from_range(v.as_slice(), 0, end);
                    assert(v@.subrange(0, end as int) =~= v@.take(end as int));
                    s.append("/file=");
                    s.append(p.as_str());
                    Ok(s)
                },
                None => Err(String::from_str("No audio URL or path in response")),
            },
        },
    }
}

/// The name of an archived audio file given a fresh id: the message id, `_`, the
/// sequence number on three digits and `.wav` when both are known; the fresh id and
/// `.wav` otherwise.
pub fn archive_file_name_with(msg_id: &Option<String>, seq: Option<u32>, fresh_id: &str) -> (r: String)
    ensures
        match (msg_id, seq) {
            (Some(id), Some(s)) => r@ == id@ + "_"@ + padded(s as nat, 3) + ".wav"@,
            _ => r@ == fresh_id@ + ".wav"@,
        },
{
    match (msg_id, seq) {
        (Some(id), Some(s)) => {
            let mut r = id.clone();
            r.append("_");
            let n = format_padded(s as u64, 3);
            r.append(n.as_str());
            r.append(".wav");
            r
        },
        _ => {
            let mut r = String::from_str(fresh_id);
            r.append(".wav");
            r
        },
    }
}

/// The name of an archived audio file (see [`archive_file_name_with`]), with a fresh
/// UUID when the message or the sequence number is not known.
pub fn archive_file_name(msg_id: &Option<String>, seq: Option<u32>) -> (r: String)
    ensures
        match (msg_id, seq) {
            (Some(id), Some(s)) => r@ == id@ + "_"@ + padded(s as nat, 3) + ".wav"@,
            _ => exists|u: Seq<char>| crate::ids::is_uuid_text(u) && r@ == u + ".wav"@,
        },
{
    match (msg_id, seq) {
        (Some(_), Some(_)) => archive_file_name_with(msg_id, seq, ""),
        _ => {
            let u = crate::ids::fresh_uuid();
            let r = archive_file_name_with(msg_id, seq, u.as_str());
            assert(crate::ids::is_uuid_text(u@) && r@ == u@ + ".wav"@);
            r
        },
    }
}

/// A `file://` address for a local path.
pub fn file_url(path: &str) -> (r: String)
    ensures
        r@ == "file://"@ + path@,
{
    let mut r = String::from_str("file://");
    r.append(path);
    r
}

/// The `file://` addresses of a message's audio files, in order; an error when the
/// message has no speech record.
pub fn get_tts_replay_paths(meta: Option<TTSMeta>) -> (r: Result<Vec<String>, String>)
    ensures
        meta is None ==> (r matches Err(e) && e@ == "No TTS meta found for this message"@),
        meta matches Some(m) ==> (r matches Ok(v) && v@.map_values(|s: String| s@) == m.audio_files@.map_values(
            |f: TTSAudioFile| "file://"@ + f.path@,
        )),
{
    match meta {
        None => Err(String::from_str("No TTS meta found for this message")),
        Some(m) => {
            let mut out: Vec<String> = Vec::new();
            let mut i: usize = 0;
            while i < m.audio_files.len()
                invariant
                    i <= m.audio_files@.len(),
                    out@.map_values(|s: String| s@) == m.audio_files@.take(i as int).map_values(
                        |f: TTSAudioFile| "file://"@ + f.path@,
                    ),
                decreases m.audio_files.len() - i,
            {
                let u = file_url(m.audio_files[i].path.as_str());
                let ghost before = out@;
                let ghost uv = u@;
                out.push(u);
                assert(out@.map_values(|s: String| s@) =~= before.map_values(|s: String| s@).push(uv));
                assert(m.audio_files@.take(i + 1) =~= m.audio_files@.take(i as int).push(
                    m.audio_files@[i as int],
                ));
                assert(out@.map_values(|s: String| s@) =~= m.audio_files@.take(i + 1).map_values(
                    |f: TTSAudioFile| "file://"@ + f.path@,
                ));
                i = i + 1;
            }
            assert(m.audio_files@.take(m.audio_files@.len() as int) =~= m.audio_files@);
            Ok(out)
        },
    }
}

/// The emotions offered by the server without its placeholder entry `请选择情绪`.
pub fn filter_emotions(emos: Vec<String>) -> (r: Vec<String>)
    ensures
        r@.map_values(|s: String| s@) == emos@.map_values(|s: String| s@).filter(
            |s: Seq<char>| s != "请选择情绪"@,
        ),
{
    let ghost all = emos@.map_values(|s: String| s@);
    let ghost pred = |s: Seq<char>| s != "请选择情绪"@;
    let ghost src = emos@;
    let mut rest = emos;
    let mut out: Vec<String> = Vec::new();
    let ghost mut i: int = 0;
    assert(all.take(0).filter(pred) =~= Seq::<Seq<char>>::empty());
    while rest.len() > 0
        invariant
            0 <= i <= src.len(),
            all == src.map_values(|s: String| s@),
            rest@ == src.skip(i),
            pred == (|s: Seq<char>| s != "请选择情绪"@),
            out@.map_values(|s: String| s@) == all.take(i).filter(pred),
        decreases rest.len(),
    {
        let e = rest.remove(0);
        proof {
            assert(src.skip(i)[0] == e);
            assert(src.skip(i).skip(1) =~= src.skip(i + 1));
            assert(all.take(i + 1) =~= all.take(i).push(e@));
            crate::keyed::lemma_filter_push(all.take(i), pred, e@);
        }
        let ghost before = out@;
        if !str_eq(e.as_str(), "请选择情绪") {
            let ghost ev = e@;
            out.push(e);
            assert(out@.map_values(|s: String| s@) =~= before.map_values(|s: String| s@).push(ev));
        }
        proof {
            i = i + 1;
        }
    }
    assert(all.take(i) =~= all);
    out
}

impl VoiceConfig {
    /// An identical copy.
    pub fn duplicate(&self) -> (v: Self)
        ensures
            v == *self,
    {
        VoiceConfig {
            speaker: self.speaker.clone(),
            emo: self.emo.clone(),
            emo_method: match &self.emo_method {
                Some(m) => Some(m.clone()),
                None => None,
            },
            speed_bits: self.speed_bits,
        }
    }
}

impl TTSConfig {
    /// The registered voice, or an empty voice for the default id, or an error.
    pub fn get_voice_config(&self, voice_id: &str) -> (r: Result<VoiceConfig, String>)
        ensures
            assoc_get(self.voices@, voice_id@) matches Some(v) ==> r == Ok::<VoiceConfig, String>(v),
            assoc_get(self.voices@, voice_id@) is None && voice_id@ == self.default_voice_id@
                ==> (r matches Ok(v) && v.speaker@.len() == 0 && v.emo@.len() == 0 && v.emo_method is None
                && v.speed_bits is None),
            assoc_get(self.voices@, voice_id@) is None && voice_id@ != self.default_voice_id@
                ==> (r matches Err(e) && e@ == "Voice '"@ + voice_id@ + "' not found"@),
    {
        match self.voices.get(voice_id) {
            Some(v) => Ok(v.duplicate()),
            None => {
                if str_eq(voice_id, self.default_voice_id.as_str()) {
                    Ok(VoiceConfig::default())
                } else {
                    let mut e = String::from_str("Voice '");
                    e.append(voice_id);
                    e.append("' not found");
                    Err(e)
                }
            },
        }
    }

    /// Registers a voice under an id, replacing one already there.
    pub fn save_voice(&mut self, voice_id: String, voice: VoiceConfig)
        ensures
            final(self).voices@ == crate::keyed::assoc_insert(old(self).voices@, voice_id, voice),
            final(self).default_voice_id == old(self).default_voice_id,
            final(self).enabled == old(self).enabled,
            final(self).base_url == old(self).base_url,
    {
        self.voices.insert(voice_id, voice);
    }

    /// Removes a voice; the default voice cannot be removed.
    pub fn delete_voice(&mut self, voice_id: &str) -> (r: Result<(), String>)
        ensures
            voice_id@ == old(self).default_voice_id@ ==> (r matches Err(e) && e@
                == "Cannot delete the default voice"@ && final(self).voices@ == old(self).voices@),
            voice_id@ != old(self).default_voice_id@ ==> r is Ok && final(self).voices@
                == crate::keyed::assoc_remove(old(self).voices@, voice_id@),
            final(self).default_voice_id == old(self).default_voice_id,
            final(self).enabled == old(self).enabled,
            final(self).base_url == old(self).base_url,
    {
        if str_eq(voice_id, self.default_voice_id.as_str()) {
            return Err(String::from_str("Cannot delete the default voice"));
        }
        self.voices.remove(voice_id);
        Ok(())
    }
}

} // verus!
