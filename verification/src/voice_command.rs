//! Voice commands: what a spoken phrase must contain to trigger a command,
//! how a transcription is searched for it, and which front-end command a
//! matched voice command sends.

use vstd::prelude::*;
use crate::commands::Command;
use crate::text::{
    CharClass, lowercase, split_at_char, split_on, to_lowercase_of, trim_class, trimmed,
    lemma_split_nonempty,
};

verus! {

/// How a voice command recognises its phrase.
#[derive(PartialEq, Eq, Debug, Clone)]
pub enum VoiceCommandMode {
    /// The transcription must contain these words, in this order.
    Contains(String),
    /// Timers are recognised by no transcription yet.
    Timer,
}

/// What a voice command does once recognised.
#[derive(PartialEq, Eq, Debug, Clone)]
pub enum VoiceCommandAction {
    /// Show the page at this address on the display.
    OpenPage(String),
}

/// A phrase to listen for and the action it triggers.
#[derive(PartialEq, Eq, Debug, Clone)]
pub struct VoiceCommand {
    pub mode: VoiceCommandMode,
    pub action: Option<VoiceCommandAction>,
}

/// The configured voice commands.
#[derive(PartialEq, Eq, Debug, Clone)]
pub struct VoiceCommandList {
    pub commands: Vec<VoiceCommand>,
}

/// One segment of a streamed transcription: its text, whether the speech
/// recogniser considers it final, and its words when it reports them.
pub struct LivekitTranscriptionSegment {
    pub text: String,
    pub completed: bool,
    pub words: Option<Vec<String>>,
}

/// The words a `Contains` phrase asks for: the phrase split at each space,
/// each piece trimmed of white space and put in lowercase.
pub open spec fn target_words(phrase: Seq<char>) -> Seq<Seq<char>> {
    split_on(phrase, ' ').map_values(|w: Seq<char>| lowercase(trimmed(w, CharClass::WhiteSpace)))
}

/// A transcribed word as it is compared: in lowercase, trimmed of white
/// space and then of sentence-ending marks.
pub open spec fn cleaned_word(w: Seq<char>) -> Seq<char> {
    trimmed(trimmed(lowercase(w), CharClass::WhiteSpace), CharClass::SentenceEnd)
}

/// The words of one segment (none when the segment reports no words).
pub open spec fn segment_words(seg: LivekitTranscriptionSegment) -> Seq<Seq<char>> {
    match seg.words {
        Some(ws) => ws@.map_values(|w: String| w@),
        None => Seq::empty(),
    }
}

/// All words of a transcription, segment after segment.
pub open spec fn transcript_words(segs: Seq<LivekitTranscriptionSegment>) -> Seq<Seq<char>>
    decreases segs.len(),
{
    if segs.len() == 0 {
        Seq::empty()
    } else {
        transcript_words(segs.drop_last()) + segment_words(segs.last())
    }
}

/// The words of a transcription are those of all its segments, in order,
/// whether a segment is completed or not: a segment that reports words
/// adds all of them, unchanged, after the words before it, and a segment
/// that reports none adds nothing. So a single segment's words are its
/// reported words.
pub proof fn lemma_transcript_words(
    segs: Seq<LivekitTranscriptionSegment>,
    seg: LivekitTranscriptionSegment,
    ws: Vec<String>,
)
    ensures
        seg.words == Some(ws) ==> transcript_words(segs.push(seg)) == transcript_words(segs) + ws@.map_values(
            |w: String| w@,
        ),
        seg.words == Some(ws) ==> transcript_words(seq![seg]) == ws@.map_values(|w: String| w@),
        seg.words is None ==> transcript_words(segs.push(seg)) == transcript_words(segs),
        transcript_words(Seq::empty()) == Seq::<Seq<char>>::empty(),
        transcript_words(segs.push(seg)).len() >= transcript_words(segs).len(),
{
    assert(segs.push(seg).drop_last() =~= segs);
    assert(seq![seg].drop_last() =~= Seq::<LivekitTranscriptionSegment>::empty());
    assert(seq![seg].last() == seg);
    assert(transcript_words(Seq::<LivekitTranscriptionSegment>::empty()) == Seq::<Seq<char>>::empty());
    if seg.words == Some(ws) {
        assert(Seq::<Seq<char>>::empty() + ws@.map_values(|w: String| w@) =~= ws@.map_values(|w: String| w@));
    }
    if seg.words is None {
        assert(transcript_words(segs) + Seq::<Seq<char>>::empty() =~= transcript_words(segs));
    }
}

/// Finds the targets in order among the words, taking for each target the
/// earliest equal word after the one matched before it. The positions are
/// counted from `offset`.
pub open spec fn greedy_match(targets: Seq<Seq<char>>, words: Seq<Seq<char>>, offset: int) -> Option<Seq<int>>
    decreases words.len(),
{
    if targets.len() == 0 {
        Some(Seq::empty())
    } else if words.len() == 0 {
        None
    } else if words[0] == targets[0] {
        match greedy_match(targets.drop_first(), words.drop_first(), offset + 1) {
            Some(rest) => Some(seq![offset].add(rest)),
            None => None,
        }
    } else {
        greedy_match(targets, words.drop_first(), offset + 1)
    }
}

/// The positions, among all words of the transcription, of the words that
/// match a voice command mode; `None` when it does not match.
pub open spec fn mode_match(mode: VoiceCommandMode, segs: Seq<LivekitTranscriptionSegment>) -> Option<Seq<int>> {
    match mode {
        VoiceCommandMode::Contains(phrase) => greedy_match(
            target_words(phrase@),
            transcript_words(segs).map_values(|w: Seq<char>| cleaned_word(w)),
            0,
        ),
        VoiceCommandMode::Timer => None,
    }
}

/// Positions of a match found by the scan so far, followed by the rest.
pub open spec fn after_prefix(prefix: Seq<int>, rest: Option<Seq<int>>) -> Option<Seq<int>> {
    match rest {
        Some(r) => Some(prefix + r),
        None => None,
    }
}

/// Brings a word of the transcription to the form in which it is compared.
pub fn clean_word(word: &str) -> (cleaned: String)
    ensures
        cleaned@ == cleaned_word(word@),
{
    let lower = to_lowercase_of(word);
    let trimmed_space = trim_class(lower.as_str(), CharClass::WhiteSpace);
    trim_class(trimmed_space.as_str(), CharClass::SentenceEnd)
}

/// The words a `Contains` phrase asks for.
pub fn phrase_targets(phrase: &str) -> (targets: Vec<String>)
    ensures
        targets@.map_values(|t: String| t@) == target_words(phrase@),
        targets@.len() >= 1,
{
    let pieces = split_at_char(phrase, ' ');
    proof {
        lemma_split_nonempty(phrase@, ' ');
    }
    let mut targets: Vec<String> = Vec::new();
    let mut i: usize = 0;
    while i < pieces.len()
        invariant
            i <= pieces@.len(),
            pieces@.map_values(|p: String| p@) == split_on(phrase@, ' '),
            targets@.len() == i,
            forall|j: int| 0 <= j < i ==> #[trigger] targets@[j]@ == lowercase(trimmed(pieces@[j]@, CharClass::WhiteSpace)),
        decreases pieces@.len() - i,
    {
        let t = trim_class(pieces[i].as_str(), CharClass::WhiteSpace);
        targets.push(to_lowercase_of(t.as_str()));
        i = i + 1;
    }
    assert(targets@.map_values(|t: String| t@) =~= target_words(phrase@)) by {
        assert forall|j: int| 0 <= j < targets@.len() implies targets@.map_values(|t: String| t@)[j] == target_words(phrase@)[j] by {
            assert(split_on(phrase@, ' ')[j] == pieces@[j]@);
        }
    }
    targets
}

/// All words of a transcription, segment after segment, each brought to
/// the form in which it is compared.
pub fn cleaned_transcript_words(segments: &Vec<LivekitTranscriptionSegment>) -> (words: Vec<String>)
    ensures
        words@.map_values(|w: String| w@) == transcript_words(segments@).map_values(|w: Seq<char>| cleaned_word(w)),
{
    let mut words: Vec<String> = Vec::new();
    let mut s: usize = 0;
    while s < segments.len()
        invariant
            s <= segments@.len(),
            words@.map_values(|w: String| w@) == transcript_words(segments@.take(s as int)).map_values(|w: Seq<char>| cleaned_word(w)),
        decreases segments@.len() - s,
    {
        let ghost before = words@.map_values(|w: String| w@);
        assert(segments@.take(s + 1).drop_last() =~= segments@.take(s as int));
        assert(segments@.take(s + 1).last() == segments@[s as int]);
        match &segments[s].words {
            Some(ws) => {
                let mut k: usize = 0;
                while k < ws.len()
                    invariant
                        k <= ws@.len(),
                        words@.map_values(|w: String| w@) == before + ws@.take(k as int).map_values(|w: String| cleaned_word(w@)),
                    decreases ws@.len() - k,
                {
                    let ghost mid = words@.map_values(|w: String| w@);
                    words.push(clean_word(ws[k].as_str()));
                    assert(ws@.take(k + 1).map_values(|w: String| cleaned_word(w@)) =~= ws@.take(k as int).map_values(|w: String| cleaned_word(w@)).push(cleaned_word(ws@[k as int]@)));
                    assert(words@.map_values(|w: String| w@) =~= mid.push(cleaned_word(ws@[k as int]@)));
                    k = k + 1;
                }
                assert(ws@.take(k as int) =~= ws@);
                assert(ws@.map_values(|w: String| cleaned_word(w@)) =~= ws@.map_values(|w: String| w@).map_values(|w: Seq<char>| cleaned_word(w)));
            },
            None => {
                assert(segment_words(segments@[s as int]) =~= Seq::<Seq<char>>::empty());
            },
        }
        let ghost seg_words = segment_words(segments@[s as int]);
        let ghost prior = transcript_words(segments@.take(s as int));
        assert((prior + seg_words).map_values(|w: Seq<char>| cleaned_word(w))
            =~= prior.map_values(|w: Seq<char>| cleaned_word(w)) + seg_words.map_values(|w: Seq<char>| cleaned_word(w)));
        s = s + 1;
    }
    assert(segments@.take(s as int) =~= segments@);
    words
}

/// `positions` picks, in increasing order, one word equal to each target.
pub open spec fn is_embedding(targets: Seq<Seq<char>>, words: Seq<Seq<char>>, positions: Seq<int>) -> bool {
    &&& positions.len() == targets.len()
    &&& forall|i: int| 0 <= i < positions.len() ==> 0 <= #[trigger] positions[i] < words.len()
    &&& forall|i: int| 0 <= i < positions.len() ==> words[#[trigger] positions[i]] == targets[i]
    &&& forall|i: int, j: int| 0 <= i < j < positions.len() ==> #[trigger] positions[i] < #[trigger] positions[j]
}

proof fn lemma_greedy_sound(targets: Seq<Seq<char>>, words: Seq<Seq<char>>, offset: int)
    ensures
        greedy_match(targets, words, offset) matches Some(p) ==> {
            &&& p.len() == targets.len()
            &&& forall|i: int| 0 <= i < p.len() ==> offset <= #[trigger] p[i] < offset + words.len()
            &&& forall|i: int| 0 <= i < p.len() ==> words[#[trigger] p[i] - offset] == targets[i]
            &&& forall|i: int, j: int| 0 <= i < j < p.len() ==> #[trigger] p[i] < #[trigger] p[j]
        },
    decreases words.len(),
{
    if targets.len() > 0 && words.len() > 0 {
        if words[0] == targets[0] {
            lemma_greedy_sound(targets.drop_first(), words.drop_first(), offset + 1);
            if let Some(rest) = greedy_match(targets.drop_first(), words.drop_first(), offset + 1) {
                let p = seq![offset].add(rest);
                assert forall|i: int| 0 <= i < p.len() implies words[#[trigger] p[i] - offset] == targets[i] by {
                    if i > 0 {
                        assert(p[i] == rest[i - 1]);
                        assert(words.drop_first()[rest[i - 1] - (offset + 1)] == targets.drop_first()[i - 1]);
                    }
                }
                assert forall|i: int, j: int| 0 <= i < j < p.len() implies #[trigger] p[i] < #[trigger] p[j] by {
                    if i > 0 {
                        assert(p[i] == rest[i - 1] && p[j] == rest[j - 1]);
                    } else {
                        assert(p[j] == rest[j - 1]);
                    }
                }
                assert forall|i: int| 0 <= i < p.len() implies offset <= #[trigger] p[i] < offset + words.len() by {
                    if i > 0 {
                        assert(p[i] == rest[i - 1]);
                    }
                }
            }
        } else {
            lemma_greedy_sound(targets, words.drop_first(), offset + 1);
            if let Some(p) = greedy_match(targets, words.drop_first(), offset + 1) {
                assert forall|i: int| 0 <= i < p.len() implies words[#[trigger] p[i] - offset] == targets[i] by {
                    assert(words.drop_first()[p[i] - (offset + 1)] == targets[i]);
                }
            }
        }
    }
}

proof fn lemma_greedy_complete(targets: Seq<Seq<char>>, words: Seq<Seq<char>>, offset: int, q: Seq<int>)
    requires
        is_embedding(targets, words, q),
    ensures
        greedy_match(targets, words, offset) matches Some(p) && p.len() == q.len()
            && forall|i: int| 0 <= i < p.len() ==> #[trigger] p[i] - offset <= q[i],
    decreases words.len(),
{
    if targets.len() == 0 {
    } else if words.len() == 0 {
        assert(0 <= q[0] < words.len());
    } else if words[0] == targets[0] {
        let q2 = Seq::new((q.len() - 1) as nat, |i: int| q[i + 1] - 1);
        assert forall|i: int| 0 <= i < q2.len() implies 0 <= #[trigger] q2[i] < words.drop_first().len() by {
            assert(q[0] < q[i + 1]);
            assert(0 <= q[0]);
        }
        assert forall|i: int| 0 <= i < q2.len() implies words.drop_first()[#[trigger] q2[i]] == targets.drop_first()[i] by {
            assert(q[0] < q[i + 1]);
            assert(words[q[i + 1]] == targets[i + 1]);
        }
        assert forall|i: int, j: int| 0 <= i < j < q2.len() implies #[trigger] q2[i] < #[trigger] q2[j] by {
            assert(q[i + 1] < q[j + 1]);
        }
        lemma_greedy_complete(targets.drop_first(), words.drop_first(), offset + 1, q2);
        let rest = greedy_match(targets.drop_first(), words.drop_first(), offset + 1)->0;
        let p = seq![offset].add(rest);
        assert forall|i: int| 0 <= i < p.len() implies #[trigger] p[i] - offset <= q[i] by {
            if i > 0 {
                assert(p[i] == rest[i - 1]);
                assert(rest[i - 1] - (offset + 1) <= q2[i - 1]);
            } else {
                assert(0 <= q[0]);
            }
        }
    } else {
        assert(q[0] != 0) by {
            if q[0] == 0 {
                assert(words[q[0]] == targets[0]);
            }
        }
        let q2 = Seq::new(q.len(), |i: int| q[i] - 1);
        assert forall|i: int| 0 <= i < q2.len() implies 0 <= #[trigger] q2[i] < words.drop_first().len() by {
            if i > 0 {
                assert(q[0] < q[i]);
            }
            assert(0 <= q[0]);
        }
        assert forall|i: int| 0 <= i < q2.len() implies words.drop_first()[#[trigger] q2[i]] == targets[i] by {
            if i > 0 {
                assert(q[0] < q[i]);
            }
            assert(words[q[i]] == targets[i]);
        }
        assert forall|i: int, j: int| 0 <= i < j < q2.len() implies #[trigger] q2[i] < #[trigger] q2[j] by {
            assert(q[i] < q[j]);
        }
        lemma_greedy_complete(targets, words.drop_first(), offset + 1, q2);
        let p = greedy_match(targets, words.drop_first(), offset + 1)->0;
        assert forall|i: int| 0 <= i < p.len() implies #[trigger] p[i] - offset <= q[i] by {
            assert(p[i] - (offset + 1) <= q2[i]);
        }
    }
}

/// A phrase matches exactly when its words occur in order among the
/// transcribed words: a match picks one equal word per target, in
/// increasing positions; and whenever such a choice exists, the matcher
/// finds one, taking at each step the earliest word that fits.
pub proof fn lemma_match_is_earliest_embedding(targets: Seq<Seq<char>>, words: Seq<Seq<char>>)
    ensures
        greedy_match(targets, words, 0) matches Some(p) ==> is_embedding(targets, words, p),
        forall|q: Seq<int>| is_embedding(targets, words, q) ==> (
            greedy_match(targets, words, 0) matches Some(p)
            && forall|i: int| 0 <= i < p.len() ==> #[trigger] p[i] <= q[i]),
        greedy_match(targets, words, 0) is None <==> !exists|q: Seq<int>| is_embedding(targets, words, q),
{
    lemma_greedy_sound(targets, words, 0);
    if let Some(p) = greedy_match(targets, words, 0) {
        assert forall|i: int| 0 <= i < p.len() implies words[#[trigger] p[i]] == targets[i] by {
            assert(words[p[i] - 0] == targets[i]);
        }
        assert(is_embedding(targets, words, p));
    }
    assert forall|q: Seq<int>| is_embedding(targets, words, q) implies (
        greedy_match(targets, words, 0) matches Some(p)
        && forall|i: int| 0 <= i < p.len() ==> #[trigger] p[i] <= q[i]) by {
        lemma_greedy_complete(targets, words, 0, q);
        let p = greedy_match(targets, words, 0)->0;
        assert forall|i: int| 0 <= i < p.len() implies #[trigger] p[i] <= q[i] by {
            assert(p[i] - 0 <= q[i]);
        }
    }
}

impl VoiceCommandMode {
    /// Looks for this mode's phrase in a transcription. For `Contains`, the
    /// words of the phrase must appear in order among the transcribed
    /// words; the result holds the positions of the matching words, counted
    /// over all words of all segments. `Timer` never matches.
    pub fn check_for_match(&self, segments: &Vec<LivekitTranscriptionSegment>) -> (positions: Option<Vec<usize>>)
        ensures
            match positions {
                Some(p) => mode_match(*self, segments@) == Some(p@.map_values(|i: usize| i as int)),
                None => mode_match(*self, segments@) is None,
            },
    {
        match self {
            VoiceCommandMode::Contains(phrase) => {
                let targets = phrase_targets(phrase.as_str());
                let words = cleaned_transcript_words(segments);
                let ghost t = targets@.map_values(|x: String| x@);
                let ghost w = words@.map_values(|x: String| x@);
                let mut matched: Vec<usize> = Vec::new();
                let mut k: usize = 0;
                assert(t.skip(0) =~= t);
                assert(w.skip(0) =~= w);
                assert(matched@.map_values(|i: usize| i as int) =~= Seq::<int>::empty());
                assert(mode_match(*self, segments@) == greedy_match(t, w, 0));
                while k < words.len()
                    invariant
                        t == targets@.map_values(|x: String| x@),
                        w == words@.map_values(|x: String| x@),
                        k <= words@.len(),
                        matched@.len() < targets@.len(),
                        mode_match(*self, segments@) == greedy_match(t, w, 0),
                        greedy_match(t, w, 0) == after_prefix(
                            matched@.map_values(|i: usize| i as int),
                            greedy_match(t.skip(matched@.len() as int), w.skip(k as int), k as int),
                        ),
                    decreases words@.len() - k,
                {
                    let m = matched.len();
                    let ghost prefix = matched@.map_values(|i: usize| i as int);
                    let ghost ts = t.skip(m as int);
                    let ghost ws = w.skip(k as int);
                    assert(ts[0] == t[m as int]);
                    assert(ws[0] == w[k as int]);
                    assert(ts.drop_first() =~= t.skip(m + 1));
                    assert(ws.drop_first() =~= w.skip(k + 1));
                    if words[k] == targets[m] {
                        matched.push(k);
                        assert(matched@.map_values(|i: usize| i as int) =~= prefix.push(k as int));
                        if matched.len() == targets.len() {
                            assert(t.skip(m + 1) =~= Seq::<Seq<char>>::empty());
                            assert(greedy_match(t.skip(m + 1), w.skip(k + 1), k + 1) == Some(Seq::<int>::empty()));
                            assert(greedy_match(ts, ws, k as int) == Some(seq![k as int].add(Seq::<int>::empty())));
                            assert(prefix + seq![k as int].add(Seq::<int>::empty()) =~= prefix.push(k as int));
                            return Some(matched);
                        }
                        assert forall|r: Seq<int>| true implies prefix + seq![k as int].add(r) =~= prefix.push(k as int) + r by {}
                    }
                    k = k + 1;
                }
                assert(w.skip(k as int).len() == 0);
                None
            },
            VoiceCommandMode::Timer => None,
        }
    }
}


/// The match of one voice command, as a vector of positions or none.
pub open spec fn positions_agree(found: Option<Vec<usize>>, expected: Option<Seq<int>>) -> bool {
    match found {
        Some(p) => expected == Some(p@.map_values(|i: usize| i as int)),
        None => expected is None,
    }
}

impl VoiceCommandList {
    /// Looks for every configured command in a transcription, in the order
    /// of the list.
    pub fn match_all(&self, segments: &Vec<LivekitTranscriptionSegment>) -> (matches: Vec<Option<Vec<usize>>>)
        ensures
            matches@.len() == self.commands@.len(),
            forall|i: int| 0 <= i < matches@.len() ==> positions_agree(
                #[trigger] matches@[i],
                mode_match(self.commands@[i].mode, segments@),
            ),
    {
        let mut matches: Vec<Option<Vec<usize>>> = Vec::new();
        let mut i: usize = 0;
        while i < self.commands.len()
            invariant
                i <= self.commands@.len(),
                matches@.len() == i,
                forall|j: int| 0 <= j < i ==> positions_agree(
                    #[trigger] matches@[j],
                    mode_match(self.commands@[j].mode, segments@),
                ),
            decreases self.commands@.len() - i,
        {
            let found = self.commands[i].mode.check_for_match(segments);
            matches.push(found);
            i = i + 1;
        }
        matches
    }
}

/// The front-end command an action sends.
pub open spec fn action_command(action: VoiceCommandAction) -> Command {
    match action {
        VoiceCommandAction::OpenPage(url) => Command::AutoTab(url),
    }
}

/// Opening a page sends that very page to the front end; a timer matches
/// no transcription.
pub proof fn lemma_actions_and_timers(url: String, segs: Seq<LivekitTranscriptionSegment>)
    ensures
        action_command(VoiceCommandAction::OpenPage(url)) == Command::AutoTab(url),
        mode_match(VoiceCommandMode::Timer, segs) is None,
{
}

impl VoiceCommandAction {
    /// The front-end command this action sends: opening a page sends the
    /// page's address to the display.
    pub fn to_command(&self) -> (command: Command)
        ensures
            command == action_command(*self),
    {
        match self {
            VoiceCommandAction::OpenPage(url) => Command::AutoTab(url.clone()),
        }
    }
}

impl VoiceCommand {
    /// What running this voice command sends to the front end: the
    /// action's command for a `Contains` command with an action, and
    /// nothing for a command without action or for a timer, which are not
    /// carried out yet.
    pub fn command_to_send(&self) -> (command: Option<Command>)
        ensures
            command == match (self.mode, self.action) {
                (VoiceCommandMode::Contains(_), Some(a)) => Some(action_command(a)),
                _ => None::<Command>,
            },
    {
        match &self.mode {
            VoiceCommandMode::Contains(_) => match &self.action {
                Some(action) => Some(action.to_command()),
                None => None,
            },
            VoiceCommandMode::Timer => None,
        }
    }
}

} // verus!
