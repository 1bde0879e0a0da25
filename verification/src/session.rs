//! The stand-alone listening session: detections and optional accumulation.
//!
//! A session reads fixed-length frames from a recorder, hands each to the
//! wakeword classifier, reports any detection under its keyword label, and,
//! when an output file was requested, accumulates every frame for a final
//! WAV dump.  Reading frames, running the classifier and writing the file
//! happen outside the crate; the decisions in between are verified here.

use vstd::prelude::*;

use crate::save::WavParams;

verus! {

/// What one classifier answer means: a non-negative answer is the index of
/// the matched keyword, any negative answer is no detection.
pub fn detection_from_index(index: i32) -> (r: Option<usize>)
    ensures
        index >= 0 ==> r == Some(index as usize),
        index < 0 ==> r is None,
{
    if index >= 0 {
        Some(index as usize)
    } else {
        None
    }
}

/// The labels of the configured keywords, one per classifier index: a
/// built-in keyword's name or a keyword file's path.
pub struct KeywordLabels {
    labels: Vec<String>,
}

impl View for KeywordLabels {
    type V = Seq<Seq<char>>;

    closed spec fn view(&self) -> Seq<Seq<char>> {
        self.labels@.map_values(|l: String| l@)
    }
}

impl KeywordLabels {
    /// Keep the given labels, in classifier-index order.
    pub fn new(labels: Vec<String>) -> (r: KeywordLabels)
        ensures
            r@.len() == labels@.len(),
            forall|i: int| 0 <= i < labels@.len() ==> r@[i] == labels@[i]@,
    {
        KeywordLabels { labels }
    }

    /// How many keywords are configured.
    pub fn len(&self) -> (n: usize)
        ensures
            n == self@.len(),
    {
        self.labels.len()
    }

    /// The label of one classifier index, or nothing when the index is out
    /// of the configured range.
    pub fn get(&self, index: usize) -> (r: Option<&String>)
        ensures
            index < self@.len() ==> (r matches Some(l) && l@ == self@[index as int]),
            index >= self@.len() ==> r is None,
    {
        if index < self.labels.len() {
            Some(&self.labels[index])
        } else {
            None
        }
    }
}

/// A listening session's own state: every frame heard so far, kept only when
/// an output file was requested at startup.
pub struct DemoSession {
    /// Whether frames are accumulated for a final dump.
    pub keep_audio: bool,
    /// The accumulated frames, in arrival order.
    pub audio: Vec<i16>,
}

impl DemoSession {
    /// Begin a session; frames are kept only if an output was requested.
    pub fn new(keep_audio: bool) -> (r: DemoSession)
        ensures
            r.keep_audio == keep_audio,
            r.audio@ == Seq::<i16>::empty(),
    {
        DemoSession { keep_audio, audio: Vec::new() }
    }

    /// Absorb one frame and the classifier's answer for it: the frame is
    /// appended to the kept audio exactly when keeping was requested, and a
    /// non-negative answer becomes the detected keyword index.
    pub fn absorb_frame(&mut self, frame: &Vec<i16>, detection: i32) -> (r: Option<usize>)
        ensures
            final(self).keep_audio == old(self).keep_audio,
            old(self).keep_audio ==> final(self).audio@ == old(self).audio@ + frame@,
            !old(self).keep_audio ==> final(self).audio@ == old(self).audio@,
            detection >= 0 ==> r == Some(detection as usize),
            detection < 0 ==> r is None,
    {
        if self.keep_audio {
            let mut i: usize = 0;
            while i < frame.len()
                invariant
                    i <= frame@.len(),
                    self.keep_audio == old(self).keep_audio,
                    self.audio@ == old(self).audio@ + frame@.take(i as int),
                decreases frame@.len() - i,
            {
                self.audio.push(frame[i]);
                proof {
                    assert(old(self).audio@ + frame@.take(i as int + 1) =~= (old(self).audio@
                        + frame@.take(i as int)).push(frame@[i as int]));
                }
                i = i + 1;
            }
            proof {
                assert(frame@.take(frame@.len() as int) =~= frame@);
            }
        }
        detection_from_index(detection)
    }

    /// The sample format the session's final dump is written with: mono
    /// 16-bit integer samples at the classifier's sample rate.
    pub fn dump_params(&self, sample_rate: u32) -> (p: WavParams)
        ensures
            p.channels == 1,
            p.sample_rate == sample_rate,
            p.bits_per_sample == 16,
            p.float_samples == false,
    {
        WavParams { channels: 1, sample_rate, bits_per_sample: 16, float_samples: false }
    }
}

} // verus!
