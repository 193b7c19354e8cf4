//! Session settings and the construction of the outbound control messages:
//! the one-off speech configuration message, the SSML envelope around plain
//! text, and the per-request synthesis message.

use vstd::prelude::*;
use vstd::string::StrSliceExecFns;
use vstd::string::StringExecFns;

use crate::text::{
    contains_pat, dec_digits, dec_signed, free_of, i16_dec, is_match_at,
    lemma_dec_digits_free_of, lemma_dec_signed_free_of, u128_dec,
};
use crate::util::{gen_request_id, is_request_id, now_millis};

verus! {

/// Immutable per-client settings.  The values are passed through to the
/// service verbatim; this layer never validates them against the service's
/// accepted vocabulary.
pub struct EdgeTTSConfig {
    /// Identifier of the codec, bitrate and channel layout of the audio the
    /// service is asked to produce.
    pub output_format: String,
    /// Name of the voice placed on the SSML `<voice>` element.
    pub voice_name: String,
    /// Speaking-rate adjustment in percent; `-1` means `-1%`.
    pub rate: i16,
    /// Baseline-pitch adjustment in percent; `-1` means `-1%`.
    pub pitch: i16,
}

/// The JSON body of the speech configuration message: boundary metadata
/// disabled, the output format inserted verbatim.
pub open spec fn spec_config_json(fmt: Seq<char>) -> Seq<char> {
    "{\"context\": {\"synthesis\": {\"audio\": {\"metadataoptions\": {\"sentenceBoundaryEnabled\": \"false\",\"wordBoundaryEnabled\": \"false\"},\"outputFormat\": "@
        + "\""@ + fmt + "\""@ + "}}}}"@
}

/// The whole speech configuration message: a pseudo-HTTP header block
/// (timestamp, content type, path), a blank line, then the JSON body.
pub open spec fn spec_config_message(fmt: Seq<char>, ts: nat) -> Seq<char> {
    "X-Timestamp:"@ + dec_digits(ts)
        + "\r\nContent-Type:application/json; charset=utf-8\r\nPath:speech.config\r\n\r\n"@
        + spec_config_json(fmt)
}

/// The SSML document wrapped around caller text: one `<voice>` element with
/// the configured name, one `<prosody>` element with rate and pitch rendered
/// as signed percentages, the content inserted verbatim and unescaped.
pub open spec fn spec_ssml(
    voice: Seq<char>,
    rate: int,
    pitch: int,
    content: Seq<char>,
) -> Seq<char> {
    "<speak xmlns=\"http://www.w3.org/2001/10/synthesis\" xmlns:mstts=\"http://www.w3.org/2001/mstts\" xmlns:emo=\"http://www.w3.org/2009/10/emotionml\" version=\"1.0\" xml:lang=\"en-US\"><voice name=\""@
        + voice + "\"><prosody rate=\""@ + dec_signed(rate) + "%\" pitch=\""@ + dec_signed(pitch)
        + "%\">"@ + content + "</prosody ></voice > </speak >"@
}

/// The synthesis request message: a header block carrying the timestamp and
/// the request id, a blank line, then the SSML body.
pub open spec fn spec_request_message(ts: nat, rid: Seq<char>, ssml: Seq<char>) -> Seq<char> {
    "X-Timestamp:"@ + dec_digits(ts) + "\r\nX-RequestId:"@ + rid
        + "\r\nContent-Type:application/ssml+xml\r\nPath:ssml\r\n\r\n"@ + ssml
}

impl EdgeTTSConfig {
    /// Builds the speech configuration message for a given timestamp.
    pub fn to_config_message_at(&self, timestamp_ms: u128) -> (r: String)
        ensures
            r@ == spec_config_message(self.output_format@, timestamp_ms as nat),
    {
        let mut s = String::from_str("X-Timestamp:");
        let ts = u128_dec(timestamp_ms);
        s.append(ts.as_str());
        s.append("\r\nContent-Type:application/json; charset=utf-8\r\nPath:speech.config\r\n\r\n");
        s.append(
            "{\"context\": {\"synthesis\": {\"audio\": {\"metadataoptions\": {\"sentenceBoundaryEnabled\": \"false\",\"wordBoundaryEnabled\": \"false\"},\"outputFormat\": ",
        );
        s.append("\"");
        s.append(self.output_format.as_str());
        s.append("\"");
        s.append("}}}}");
        s
    }

    /// Builds the speech configuration message, stamped with the wall clock.
    /// This message is sent once per connection, immediately after the
    /// transport is established and before any synthesis request.
    pub fn to_config_message(&self) -> (r: String)
        ensures
            exists|ts: nat| r@ == spec_config_message(self.output_format@, ts),
    {
        let now = now_millis();
        let r = self.to_config_message_at(now);
        proof {
            assert(r@ == spec_config_message(self.output_format@, now as nat));
        }
        r
    }

    /// Wraps caller-supplied text in the SSML envelope.  The content is
    /// inserted verbatim: callers supplying plain text must not include
    /// markup-significant characters, and callers needing control supply a
    /// whole SSML document themselves instead.
    pub fn to_ssml(&self, content: String) -> (r: String)
        ensures
            r@ == spec_ssml(self.voice_name@, self.rate as int, self.pitch as int, content@),
    {
        let mut s = String::from_str(
            "<speak xmlns=\"http://www.w3.org/2001/10/synthesis\" xmlns:mstts=\"http://www.w3.org/2001/mstts\" xmlns:emo=\"http://www.w3.org/2009/10/emotionml\" version=\"1.0\" xml:lang=\"en-US\"><voice name=\"",
        );
        s.append(self.voice_name.as_str());
        s.append("\"><prosody rate=\"");
        let r1 = i16_dec(self.rate);
        s.append(r1.as_str());
        s.append("%\" pitch=\"");
        let r2 = i16_dec(self.pitch);
        s.append(r2.as_str());
        s.append("%\">");
        s.append(content.as_str());
        s.append("</prosody ></voice > </speak >");
        s
    }
}

impl Default for EdgeTTSConfig {
    /// The stock settings: 24 kHz mono MP3 output and a neutral prosody.
    fn default() -> (r: EdgeTTSConfig)
        ensures
            r.output_format@ == "audio-24khz-96kbitrate-mono-mp3"@,
            r.voice_name@ == "zh-CN-XiaoxiaoNeural"@,
            r.rate == 0i16,
            r.pitch == 0i16,
    {
        EdgeTTSConfig {
            output_format: String::from_str("audio-24khz-96kbitrate-mono-mp3"),
            voice_name: String::from_str("zh-CN-XiaoxiaoNeural"),
            rate: 0,
            pitch: 0,
        }
    }
}

/// Builds the synthesis request message for a given request id and timestamp.
pub fn build_request_message_at(ssml: &str, request_id: &str, timestamp_ms: u128) -> (r: String)
    ensures
        r@ == spec_request_message(timestamp_ms as nat, request_id@, ssml@),
{
    let mut s = String::from_str("X-Timestamp:");
    let ts = u128_dec(timestamp_ms);
    s.append(ts.as_str());
    s.append("\r\nX-RequestId:");
    s.append(request_id);
    s.append("\r\nContent-Type:application/ssml+xml\r\nPath:ssml\r\n\r\n");
    s.append(ssml);
    s
}

/// Builds the synthesis request message around a finished SSML document,
/// stamped with the wall clock and a fresh request id.  A fresh id is minted
/// for every request, so diagnostic logs of concurrent connections can be
/// told apart.
pub fn build_request_message(ssml: &str) -> (r: String)
    ensures
        exists|ts: nat, rid: Seq<char>|
            is_request_id(rid) && r@ == spec_request_message(ts, rid, ssml@),
{
    let now = now_millis();
    let rid = gen_request_id();
    let r = build_request_message_at(ssml, rid.as_str(), now);
    proof {
        assert(is_request_id(rid@) && r@ == spec_request_message(now as nat, rid@, ssml@));
    }
    r
}

/// The configuration message holds exactly one header block: the blank line
/// `\r\n\r\n` occurs at exactly one place, and everything after it is the
/// JSON body, with the output format inserted verbatim.  A carriage return
/// inside the output format would forge a second blank line, so the law asks
/// for a format without one.
pub proof fn lemma_config_message_single_header_block(fmt: Seq<char>, ts: nat)
    requires
        free_of(fmt, '\r'),
    ensures
        ({
            let msg = spec_config_message(fmt, ts);
            let sep = "\r\n\r\n"@;
            let i = msg.len() - spec_config_json(fmt).len() - 4;
            &&& is_match_at(msg, sep, i)
            &&& (forall|j: int| is_match_at(msg, sep, j) ==> j == i)
            &&& msg.skip(i + 4) == spec_config_json(fmt)
        }),
{
    reveal_strlit("X-Timestamp:");
    reveal_strlit("\r\nContent-Type:application/json; charset=utf-8\r\nPath:speech.config\r\n\r\n");
    reveal_strlit("\r\n\r\n");
    reveal_strlit(
        "{\"context\": {\"synthesis\": {\"audio\": {\"metadataoptions\": {\"sentenceBoundaryEnabled\": \"false\",\"wordBoundaryEnabled\": \"false\"},\"outputFormat\": ",
    );
    reveal_strlit("\"");
    reveal_strlit("}}}}");
    let hh = "X-Timestamp:"@;
    let dd = dec_digits(ts);
    let mm = "\r\nContent-Type:application/json; charset=utf-8\r\nPath:speech.config\r\n\r\n"@;
    let jh =
        "{\"context\": {\"synthesis\": {\"audio\": {\"metadataoptions\": {\"sentenceBoundaryEnabled\": \"false\",\"wordBoundaryEnabled\": \"false\"},\"outputFormat\": "@;
    let qq = "\""@;
    let bb = "}}}}"@;
    let jj = spec_config_json(fmt);
    let msg = spec_config_message(fmt, ts);
    let sep = "\r\n\r\n"@;
    lemma_dec_digits_free_of(ts, '\r');
    let base: int = hh.len() as int + dd.len() as int;
    let i: int = base + 66;
    assert(msg.len() == base + mm.len() + jj.len());
    assert(jj.len() == jh.len() + 2 + fmt.len() + bb.len());
    assert(i == msg.len() - jj.len() - 4);
    // Where a carriage return can sit in each piece.
    assert(forall|k: int| 0 <= k < hh.len() ==> hh[k] != '\r');
    assert(forall|k: int|
        0 <= k < mm.len() && #[trigger] mm[k] == '\r' ==> k == 0 || k == 46 || k == 66 || k
            == 68);
    assert(mm[66] == '\r' && mm[67] == '\n' && mm[68] == '\r' && mm[69] == '\n');
    assert(forall|k: int| 0 <= k < jh.len() ==> jh[k] != '\r');
    assert forall|k: int| 0 <= k < jj.len() implies jj[k] != '\r' by {
        if k < jh.len() {
            assert(jj[k] == jh[k]);
        } else if k < jh.len() + 1 {
            assert(jj[k] == qq[k - jh.len()]);
        } else if k < jh.len() + 1 + fmt.len() {
            assert(jj[k] == fmt[k - jh.len() - 1]);
        } else if k < jh.len() + 2 + fmt.len() {
            assert(jj[k] == qq[k - jh.len() - 1 - fmt.len()]);
        } else {
            assert(jj[k] == bb[k - jh.len() - 2 - fmt.len()]);
        }
    }
    // So a carriage return in the whole message sits at one of four places.
    assert forall|k: int| 0 <= k < msg.len() && #[trigger] msg[k] == '\r' implies k == base || k
        == base + 46 || k == i || k == i + 2 by {
        if k < hh.len() {
            assert(msg[k] == hh[k]);
        } else if k < base {
            assert(msg[k] == dd[k - hh.len()]);
        } else if k < base + mm.len() {
            assert(msg[k] == mm[k - base]);
        } else {
            assert(msg[k] == jj[k - base - mm.len()]);
        }
    }
    // The blank line is there ...
    assert(msg[i] == mm[66]);
    assert(msg[i + 1] == mm[67]);
    assert(msg[i + 2] == mm[68]);
    assert(msg[i + 3] == mm[69]);
    assert(msg.subrange(i, i + 4) =~= sep);
    assert(is_match_at(msg, sep, i));
    // ... and nowhere else.
    assert forall|j: int| is_match_at(msg, sep, j) implies j == i by {
        assert(msg.subrange(j, j + 4) == sep);
        assert(msg[j] == msg.subrange(j, j + 4)[0]);
        assert(msg[j + 2] == msg.subrange(j, j + 4)[2]);
        assert(msg[j] == '\r' && msg[j + 2] == '\r');
    }
    // Everything after it is the JSON body.
    assert forall|t: int| 0 <= t < jj.len() implies msg.skip(i + 4)[t] == jj[t] by {
        assert(msg.skip(i + 4)[t] == msg[i + 4 + t]);
        assert(msg[base + mm.len() + t] == jj[t]);
    }
    assert(msg.skip(i + 4) =~= jj);
}

/// For every output format, with nothing assumed of it: the first blank line
/// `\r\n\r\n` of the configuration message terminates the header block, and
/// everything after it is the JSON body, with the format inserted verbatim.
/// (Only the stronger claim, that no later blank line exists either, needs a
/// format without a carriage return: see
/// `lemma_config_message_single_header_block`.)
pub proof fn lemma_config_message_body_after_first_separator(fmt: Seq<char>, ts: nat)
    ensures
        ({
            let msg = spec_config_message(fmt, ts);
            let sep = "\r\n\r\n"@;
            let i = msg.len() - spec_config_json(fmt).len() - 4;
            &&& is_match_at(msg, sep, i)
            &&& (forall|j: int| 0 <= j < i ==> !is_match_at(msg, sep, j))
            &&& msg.skip(i + 4) == spec_config_json(fmt)
        }),
{
    reveal_strlit("X-Timestamp:");
    reveal_strlit("\r\nContent-Type:application/json; charset=utf-8\r\nPath:speech.config\r\n\r\n");
    reveal_strlit("\r\n\r\n");
    let hh = "X-Timestamp:"@;
    let dd = dec_digits(ts);
    let mm = "\r\nContent-Type:application/json; charset=utf-8\r\nPath:speech.config\r\n\r\n"@;
    let jj = spec_config_json(fmt);
    let msg = spec_config_message(fmt, ts);
    let sep = "\r\n\r\n"@;
    lemma_dec_digits_free_of(ts, '\r');
    let base: int = hh.len() as int + dd.len() as int;
    let i: int = base + 66;
    assert(msg.len() == base + mm.len() + jj.len());
    assert(i == msg.len() - jj.len() - 4);
    // Where a carriage return can sit before the separator.
    assert(forall|k: int| 0 <= k < hh.len() ==> hh[k] != '\r');
    assert(forall|k: int|
        0 <= k < mm.len() && #[trigger] mm[k] == '\r' ==> k == 0 || k == 46 || k == 66 || k
            == 68);
    assert(mm[66] == '\r' && mm[67] == '\n' && mm[68] == '\r' && mm[69] == '\n');
    assert forall|k: int| 0 <= k < i && #[trigger] msg[k] == '\r' implies k == base || k == base
        + 46 by {
        if k < hh.len() {
            assert(msg[k] == hh[k]);
        } else if k < base {
            assert(msg[k] == dd[k - hh.len()]);
        } else {
            assert(msg[k] == mm[k - base]);
        }
    }
    // The blank line terminates the header ...
    assert(msg[i] == mm[66]);
    assert(msg[i + 1] == mm[67]);
    assert(msg[i + 2] == mm[68]);
    assert(msg[i + 3] == mm[69]);
    assert(msg.subrange(i, i + 4) =~= sep);
    assert(is_match_at(msg, sep, i));
    // ... and no earlier one exists, whatever the format holds.
    assert forall|j: int| 0 <= j < i implies !is_match_at(msg, sep, j) by {
        if is_match_at(msg, sep, j) {
            assert(msg.subrange(j, j + 4) == sep);
            assert(msg[j] == msg.subrange(j, j + 4)[0]);
            assert(msg[j + 2] == msg.subrange(j, j + 4)[2]);
            assert(msg[j] == '\r' && msg[j + 2] == '\r');
            assert(j == base || j == base + 46);
            assert(msg[j + 2] == mm[j + 2 - base]);
        }
    }
    // Everything after it is the JSON body.
    assert forall|t: int| 0 <= t < jj.len() implies msg.skip(i + 4)[t] == jj[t] by {
        assert(msg.skip(i + 4)[t] == msg[i + 4 + t]);
        assert(msg[base + mm.len() + t] == jj[t]);
    }
    assert(msg.skip(i + 4) =~= jj);
}

/// The SSML envelope holds exactly one `<voice name="...">` element, naming
/// the given voice verbatim, and exactly one `<prosody rate="..." pitch="...">`
/// element, carrying the rate and the pitch as signed percentages.  The
/// content only needs to open no voice or prosody element of its own; the
/// voice name must hold no `<` at all, since a name such as `<voice name=`
/// forges a second element against the quote that follows it.
pub proof fn lemma_ssml_single_voice_and_prosody(
    voice: Seq<char>,
    rate: int,
    pitch: int,
    content: Seq<char>,
)
    requires
        free_of(voice, '<'),
        !contains_pat(content, "<voice"@),
        !contains_pat(content, "<prosody"@),
    ensures
        ({
            let doc = spec_ssml(voice, rate, pitch, content);
            let pv = "<voice name=\""@;
            let pp = "<prosody rate=\""@;
            let iv = "<speak xmlns=\"http://www.w3.org/2001/10/synthesis\" xmlns:mstts=\"http://www.w3.org/2001/mstts\" xmlns:emo=\"http://www.w3.org/2009/10/emotionml\" version=\"1.0\" xml:lang=\"en-US\"><voice name=\""@.len()
                - 13;
            let ip = iv + 13 + voice.len() + 2;
            &&& is_match_at(doc, pv, iv)
            &&& (forall|j: int| is_match_at(doc, pv, j) ==> j == iv)
            &&& doc.subrange(iv + 13, iv + 13 + voice.len()) == voice
            &&& doc[iv + 13 + voice.len()] == '"'
            &&& is_match_at(doc, pp, ip)
            &&& (forall|j: int| is_match_at(doc, pp, j) ==> j == ip)
            &&& doc.subrange(
                ip + 15,
                ip + 15 + dec_signed(rate).len() + 10 + dec_signed(pitch).len() + 3,
            ) == dec_signed(rate) + "%\" pitch=\""@ + dec_signed(pitch) + "%\">"@
        }),
{
    reveal_strlit(
        "<speak xmlns=\"http://www.w3.org/2001/10/synthesis\" xmlns:mstts=\"http://www.w3.org/2001/mstts\" xmlns:emo=\"http://www.w3.org/2009/10/emotionml\" version=\"1.0\" xml:lang=\"en-US\"><voice name=\"",
    );
    reveal_strlit("\"><prosody rate=\"");
    reveal_strlit("%\" pitch=\"");
    reveal_strlit("%\">");
    reveal_strlit("</prosody ></voice > </speak >");
    reveal_strlit("<voice name=\"");
    reveal_strlit("<prosody rate=\"");
    reveal_strlit("<voice");
    reveal_strlit("<prosody");
    let hd =
        "<speak xmlns=\"http://www.w3.org/2001/10/synthesis\" xmlns:mstts=\"http://www.w3.org/2001/mstts\" xmlns:emo=\"http://www.w3.org/2009/10/emotionml\" version=\"1.0\" xml:lang=\"en-US\"><voice name=\""@;
    let m1 = "\"><prosody rate=\""@;
    let rr = dec_signed(rate);
    let m2 = "%\" pitch=\""@;
    let qq = dec_signed(pitch);
    let m3 = "%\">"@;
    let tl = "</prosody ></voice > </speak >"@;
    let pv = "<voice name=\""@;
    let pp = "<prosody rate=\""@;
    let doc = spec_ssml(voice, rate, pitch, content);
    lemma_dec_signed_free_of(rate, '<');
    lemma_dec_signed_free_of(pitch, '<');
    let o1: int = hd.len() as int;
    let o2: int = o1 + voice.len();
    let o3: int = o2 + 17;
    let o4: int = o3 + rr.len();
    let o5: int = o4 + 10;
    let o6: int = o5 + qq.len();
    let o7: int = o6 + 3;
    let o8: int = o7 + content.len();
    let iv: int = o1 - 13;
    let ip: int = o2 + 2;
    assert(doc.len() == o8 + 30);
    // Where `<` can sit in each literal piece.
    assert(forall|k: int| 0 <= k < hd.len() && #[trigger] hd[k] == '<' ==> k == 0 || k == iv);
    assert(forall|k: int| 0 <= k < m1.len() && #[trigger] m1[k] == '<' ==> k == 2);
    assert(forall|k: int| 0 <= k < m2.len() ==> m2[k] != '<');
    assert(forall|k: int| 0 <= k < m3.len() ==> m3[k] != '<');
    assert(forall|k: int|
        0 <= k < tl.len() && #[trigger] tl[k] == '<' ==> k == 0 || k == 11 || k == 21);
    // Where the two patterns themselves hold `<`, and where they differ.
    assert(forall|t: int| 1 <= t < 13 ==> #[trigger] pv[t] != '<');
    assert(forall|t: int| 1 <= t < 15 ==> #[trigger] pp[t] != '<');
    assert(pv.subrange(0, 6) =~= "<voice"@);
    assert(pp.subrange(0, 8) =~= "<prosody"@);
    // So `<` before the content sits at one of three places ...
    assert forall|k: int| 0 <= k < o7 && #[trigger] doc[k] == '<' implies k == 0 || k == iv || k
        == ip by {
        if k < o1 {
            assert(doc[k] == hd[k]);
        } else if k < o2 {
            assert(doc[k] == voice[k - o1]);
        } else if k < o3 {
            assert(doc[k] == m1[k - o2]);
        } else if k < o4 {
            assert(doc[k] == rr[k - o3]);
        } else if k < o5 {
            assert(doc[k] == m2[k - o4]);
        } else if k < o6 {
            assert(doc[k] == qq[k - o5]);
        } else {
            assert(doc[k] == m3[k - o6]);
        }
    }
    // ... and `<` after it at one of three more.
    assert forall|k: int| o8 <= k < doc.len() && #[trigger] doc[k] == '<' implies k == o8 || k
        == o8 + 11 || k == o8 + 21 by {
        assert(doc[k] == tl[k - o8]);
    }
    // The voice element is there ...
    assert forall|t: int| 0 <= t < 13 implies doc[iv + t] == pv[t] by {
        assert(doc[iv + t] == hd[iv + t]);
    }
    assert(doc.subrange(iv, iv + 13) =~= pv);
    assert(is_match_at(doc, pv, iv));
    // ... naming the voice, terminated by a quote ...
    assert forall|t: int| 0 <= t < voice.len() implies doc.subrange(o1, o2)[t] == voice[t] by {
        assert(doc.subrange(o1, o2)[t] == doc[o1 + t]);
        assert(doc[o1 + t] == voice[t]);
    }
    assert(doc.subrange(o1, o2) =~= voice);
    assert(doc[o2] == m1[0]);
    // ... and nowhere else: not in the fixed text, and not in or around the
    // content, which opens no voice element of its own.
    assert forall|j: int| is_match_at(doc, pv, j) implies j == iv by {
        assert(doc.subrange(j, j + 13) == pv);
        assert forall|t: int| 0 <= t < 13 implies #[trigger] doc[j + t] == pv[t] by {
            assert(doc.subrange(j, j + 13)[t] == doc[j + t]);
        }
        assert(doc[j] == doc.subrange(j, j + 13)[0]);
        assert(doc[j + 1] == doc.subrange(j, j + 13)[1]);
        assert(doc[j] == '<' && doc[j + 1] == 'v');
        if j < o7 {
            if j == 0 {
                assert(doc[1] == hd[1]);
            } else if j == ip {
                assert(doc[ip + 1] == m1[3]);
            }
        } else if j < o8 {
            if o8 - j >= 13 {
                assert forall|t: int| 0 <= t < 6 implies content.subrange(j - o7, j - o7 + 6)[t]
                    == "<voice"@[t] by {
                    assert(doc[j + t] == content[j - o7 + t]);
                    assert(pv[t] == pv.subrange(0, 6)[t]);
                }
                assert(content.subrange(j - o7, j - o7 + 6) =~= "<voice"@);
                assert(is_match_at(content, "<voice"@, j - o7));
            } else {
                let e = o8 - j;
                assert(doc[j + e] == tl[0]);
                assert(doc[j + e] == pv[e]);
            }
        } else {
            if j == o8 {
                assert(doc[o8 + 1] == tl[1]);
            } else if j == o8 + 11 {
                assert(doc[o8 + 12] == tl[12]);
            } else if j == o8 + 21 {
                assert(doc[o8 + 22] == tl[22]);
            }
        }
    }
    // The prosody element is there, with rate and pitch after it ...
    assert forall|t: int| 0 <= t < 15 implies doc[ip + t] == pp[t] by {
        assert(doc[ip + t] == m1[2 + t]);
    }
    assert(doc.subrange(ip, ip + 15) =~= pp);
    assert(is_match_at(doc, pp, ip));
    let vals = rr + m2 + qq + m3;
    assert forall|t: int| 0 <= t < vals.len() implies doc.subrange(o3, o7)[t] == vals[t] by {
        assert(doc.subrange(o3, o7)[t] == doc[o3 + t]);
        if t < rr.len() {
            assert(doc[o3 + t] == rr[t]);
        } else if t < rr.len() + 10 {
            assert(doc[o3 + t] == m2[t - rr.len()]);
        } else if t < rr.len() + 10 + qq.len() {
            assert(doc[o3 + t] == qq[t - rr.len() - 10]);
        } else {
            assert(doc[o3 + t] == m3[t - rr.len() - 10 - qq.len()]);
        }
    }
    assert(doc.subrange(o3, o7) =~= vals);
    // ... and nowhere else, by the same regions as for the voice element.
    assert forall|j: int| is_match_at(doc, pp, j) implies j == ip by {
        assert(doc.subrange(j, j + 15) == pp);
        assert forall|t: int| 0 <= t < 15 implies #[trigger] doc[j + t] == pp[t] by {
            assert(doc.subrange(j, j + 15)[t] == doc[j + t]);
        }
        assert(doc[j] == doc.subrange(j, j + 15)[0]);
        assert(doc[j + 1] == doc.subrange(j, j + 15)[1]);
        assert(doc[j] == '<' && doc[j + 1] == 'p');
        if j < o7 {
            if j == 0 {
                assert(doc[1] == hd[1]);
            } else if j == iv {
                assert(doc[iv + 1] == hd[iv + 1]);
            }
        } else if j < o8 {
            if o8 - j >= 15 {
                assert forall|t: int| 0 <= t < 8 implies content.subrange(j - o7, j - o7 + 8)[t]
                    == "<prosody"@[t] by {
                    assert(doc[j + t] == content[j - o7 + t]);
                    assert(pp[t] == pp.subrange(0, 8)[t]);
                }
                assert(content.subrange(j - o7, j - o7 + 8) =~= "<prosody"@);
                assert(is_match_at(content, "<prosody"@, j - o7));
            } else {
                let e = o8 - j;
                assert(doc[j + e] == tl[0]);
                assert(doc[j + e] == pp[e]);
            }
        } else {
            if j == o8 {
                assert(doc[o8 + 1] == tl[1]);
            } else if j == o8 + 11 {
                assert(doc[o8 + 12] == tl[12]);
            } else if j == o8 + 21 {
                assert(doc[o8 + 22] == tl[22]);
            }
        }
    }
}

/// The connection URL: endpoint path plus the fixed trusted-client token and
/// the connection-lifetime identity token as query parameters.
pub open spec fn spec_connect_url(connection_id: Seq<char>) -> Seq<char> {
    "wss://speech.platform.bing.com/consumer/speech/synthesize/readaloud/edge/v1?TrustedClientToken=6A5AA1D4EAFF4E9FB37E23D68491D6F4&ConnectionId="@
        + connection_id
}

/// A client handle: the settings plus the connection-lifetime identity token,
/// generated once at construction and reused for the connection's lifetime.
pub struct EdgeTTS {
    pub config: EdgeTTSConfig,
    pub request_id: String,
}

impl EdgeTTS {
    /// The identity token has the wire shape: 32 lowercase hex digits.
    pub open spec fn wf(&self) -> bool {
        is_request_id(self.request_id@)
    }

    /// Creates a client around the given settings, minting the
    /// connection-lifetime identity token.
    pub fn new(config: EdgeTTSConfig) -> (r: EdgeTTS)
        ensures
            r.wf(),
            r.config == config,
    {
        EdgeTTS { config, request_id: gen_request_id() }
    }

    /// The connection-lifetime identity token.
    pub fn connection_id(&self) -> (r: &str)
        ensures
            r@ == self.request_id@,
    {
        self.request_id.as_str()
    }

    /// The URL to open the socket against, naming this connection's identity.
    pub fn connect_url(&self) -> (r: String)
        ensures
            r@ == spec_connect_url(self.request_id@),
    {
        let mut s = String::from_str(
            "wss://speech.platform.bing.com/consumer/speech/synthesize/readaloud/edge/v1?TrustedClientToken=6A5AA1D4EAFF4E9FB37E23D68491D6F4&ConnectionId=",
        );
        s.append(self.request_id.as_str());
        s
    }
}

} // verus!
