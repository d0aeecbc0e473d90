//! Cue sheets as one DJ console exports them: a line-oriented text whose
//! `REM`, `TITLE`, `PERFORMER`, `FILE`, `TRACK` and `INDEX` lines describe a
//! recorded mix and the tracks played in it. Other lines are skipped.
use vstd::prelude::*;
use vstd::string::*;
use crate::text::{
    chars_of, index_from, is_ws, lemma_words_nonempty, join_spaced, join_words, quoted, quoted_chars, slice, slice_of,
    split_lines, split_words, string_of, trim, trim_end, trim_start, trimmed, unquote, unquote_chars, views, word_is,
    words,
};
use crate::wave::WaveFile;

verus! {

/// A file that a sheet or a track points to.
#[derive(Debug, Clone)]
pub struct File {
    pub name: String,
    pub format: String,
}

/// One track played in the recording.
#[derive(Debug, Clone)]
pub struct Track {
    /// The name of the song.
    pub title: Option<String>,
    /// The song's artist.
    pub performer: Option<String>,
    /// The local file where the song is located.
    pub file: Option<File>,
    /// When the track starts in the recording, as written (`HH:MM:SS`).
    pub start_time: Option<String>,
}

/// A parsed cue sheet.
#[derive(Debug, Clone)]
pub struct CueSheet {
    /// The path of the cue sheet.
    pub file_path: String,
    /// The `REM` comments, as key and value, in order.
    pub rem: Vec<(String, String)>,
    /// The title of the recording.
    pub title: Option<String>,
    /// The DJ who made the recording.
    pub performer: Option<String>,
    /// The file the sheet points to.
    pub file: Option<File>,
    /// The tracks, in the order the sheet lists them.
    pub tracks: Vec<Track>,
    /// What the wave file beside the sheet holds, where one was read.
    pub wave_file: Option<WaveFile>,
}

/// A file reference as characters.
pub struct FileModel {
    pub name: Seq<char>,
    pub format: Seq<char>,
}

/// A track as characters.
pub struct TrackModel {
    pub title: Option<Seq<char>>,
    pub performer: Option<Seq<char>>,
    pub file: Option<FileModel>,
    pub start_time: Option<Seq<char>>,
}

/// What the parser knows after some lines: the sheet so far, and the track
/// that is open and not yet committed to `tracks`.
pub struct SheetModel {
    pub comments: Seq<(Seq<char>, Seq<char>)>,
    pub title: Option<Seq<char>>,
    pub performer: Option<Seq<char>>,
    pub file: Option<FileModel>,
    pub tracks: Seq<TrackModel>,
    pub current: Option<TrackModel>,
}

/// An optional string as an optional sequence of characters.
pub open spec fn opt_view(o: Option<String>) -> Option<Seq<char>> {
    match o {
        Some(s) => Some(s@),
        None => None,
    }
}

impl File {
    pub open spec fn model(&self) -> FileModel {
        FileModel { name: self.name@, format: self.format@ }
    }
}

pub open spec fn file_model(o: Option<File>) -> Option<FileModel> {
    match o {
        Some(f) => Some(f.model()),
        None => None,
    }
}

impl Track {
    pub open spec fn model(&self) -> TrackModel {
        TrackModel {
            title: opt_view(self.title),
            performer: opt_view(self.performer),
            file: file_model(self.file),
            start_time: opt_view(self.start_time),
        }
    }
}

pub open spec fn track_models(v: Seq<Track>) -> Seq<TrackModel> {
    v.map_values(|t: Track| t.model())
}

pub open spec fn comment_models(v: Seq<(String, String)>) -> Seq<(Seq<char>, Seq<char>)> {
    v.map_values(|p: (String, String)| (p.0@, p.1@))
}

pub open spec fn empty_track() -> TrackModel {
    TrackModel { title: None, performer: None, file: None, start_time: None }
}

pub open spec fn empty_sheet() -> SheetModel {
    SheetModel {
        comments: seq![],
        title: None,
        performer: None,
        file: None,
        tracks: seq![],
        current: None,
    }
}

pub open spec fn kw_rem() -> Seq<char> {
    seq!['R', 'E', 'M']
}

pub open spec fn kw_title() -> Seq<char> {
    seq!['T', 'I', 'T', 'L', 'E']
}

pub open spec fn kw_performer() -> Seq<char> {
    seq!['P', 'E', 'R', 'F', 'O', 'R', 'M', 'E', 'R']
}

pub open spec fn kw_file() -> Seq<char> {
    seq!['F', 'I', 'L', 'E']
}

pub open spec fn kw_track() -> Seq<char> {
    seq!['T', 'R', 'A', 'C', 'K']
}

pub open spec fn kw_index() -> Seq<char> {
    seq!['I', 'N', 'D', 'E', 'X']
}

/// A line is at sheet level when it does not start with a tab.
pub open spec fn at_sheet_level(line: Seq<char>) -> bool {
    !(line.len() > 0 && line[0] == '\t')
}

/// Whether a line is a `TRACK` line that the parser acts on.
pub open spec fn is_track_line(line: Seq<char>) -> bool {
    words(line).len() >= 2 && words(line)[0] == kw_track()
}

/// Whether the first word of the line is one the parser knows.
pub open spec fn is_known_keyword(w: Seq<char>) -> bool {
    w == kw_rem() || w == kw_title() || w == kw_performer() || w == kw_file() || w == kw_track()
        || w == kw_index()
}

/// The title goes to the open track; with none open, to the sheet if the line
/// is at sheet level.
pub open spec fn place_title(st: SheetModel, top: bool, x: Seq<char>) -> SheetModel {
    match st.current {
        Some(t) => SheetModel { current: Some(TrackModel { title: Some(x), ..t }), ..st },
        None => if top {
            SheetModel { title: Some(x), ..st }
        } else {
            st
        },
    }
}

pub open spec fn place_performer(st: SheetModel, top: bool, x: Seq<char>) -> SheetModel {
    match st.current {
        Some(t) => SheetModel { current: Some(TrackModel { performer: Some(x), ..t }), ..st },
        None => if top {
            SheetModel { performer: Some(x), ..st }
        } else {
            st
        },
    }
}

pub open spec fn place_file(st: SheetModel, top: bool, f: FileModel) -> SheetModel {
    match st.current {
        Some(t) => SheetModel { current: Some(TrackModel { file: Some(f), ..t }), ..st },
        None => if top {
            SheetModel { file: Some(f), ..st }
        } else {
            st
        },
    }
}

/// The tracks with the open one, if any, committed after them.
pub open spec fn committed(st: SheetModel) -> Seq<TrackModel> {
    match st.current {
        Some(t) => st.tracks.push(t),
        None => st.tracks,
    }
}

/// What one line does to the parser. A line of fewer than two words, or one
/// whose first word is not a keyword, changes nothing: a lone `TRACK`,
/// `TITLE` or `FILE` line is taken as malformed and opens or sets nothing.
pub open spec fn step(st: SheetModel, line: Seq<char>) -> SheetModel {
    let t = trimmed(line);
    let ws = words(line);
    let top = at_sheet_level(line);
    if ws.len() < 2 {
        st
    } else if ws[0] == kw_rem() {
        if ws.len() >= 3 {
            let value = unquote(join_spaced(ws.subrange(2, ws.len() as int)));
            SheetModel { comments: st.comments.push((ws[1], value)), ..st }
        } else {
            st
        }
    } else if ws[0] == kw_title() {
        place_title(st, top, quoted(slice(t, 5, t.len() as int)))
    } else if ws[0] == kw_performer() {
        place_performer(st, top, quoted(slice(t, 9, t.len() as int)))
    } else if ws[0] == kw_file() {
        let format = ws.last();
        let name = quoted(slice(t, 4, t.len() - format.len()));
        place_file(st, top, FileModel { name, format })
    } else if ws[0] == kw_track() {
        SheetModel { tracks: committed(st), current: Some(empty_track()), ..st }
    } else if ws[0] == kw_index() {
        match st.current {
            Some(tr) => if ws.len() >= 3 {
                SheetModel { current: Some(TrackModel { start_time: Some(ws[2]), ..tr }), ..st }
            } else {
                st
            },
            None => st,
        }
    } else {
        st
    }
}

/// The parser after the given lines, from an empty sheet.
pub open spec fn run(lines: Seq<Seq<char>>) -> SheetModel
    decreases lines.len(),
{
    if lines.len() == 0 {
        empty_sheet()
    } else {
        step(run(lines.drop_last()), lines.last())
    }
}

/// The sheet that a text describes: every line applied, then the open track committed.
pub open spec fn sheet_of(input: Seq<char>) -> SheetModel {
    let st = run(split_lines(input));
    SheetModel { tracks: committed(st), current: None, ..st }
}

/// The parser's state while it reads a sheet.
struct Parser {
    rem: Vec<(String, String)>,
    title: Option<String>,
    performer: Option<String>,
    file: Option<File>,
    tracks: Vec<Track>,
    current: Option<Track>,
}

impl Parser {
    closed spec fn model(&self) -> SheetModel {
        SheetModel {
            comments: comment_models(self.rem@),
            title: opt_view(self.title),
            performer: opt_view(self.performer),
            file: file_model(self.file),
            tracks: track_models(self.tracks@),
            current: match self.current {
                Some(t) => Some(t.model()),
                None => None,
            },
        }
    }

    fn new() -> (r: Parser)
        ensures
            r.model() == empty_sheet(),
    {
        let r = Parser {
            rem: Vec::new(),
            title: None,
            performer: None,
            file: None,
            tracks: Vec::new(),
            current: None,
        };
        assert(r.model().comments =~= seq![]);
        assert(r.model().tracks =~= seq![]);
        r
    }

    fn set_title(&mut self, top: bool, x: String)
        ensures
            final(self).model() == place_title(old(self).model(), top, x@),
    {
        match self.current.take() {
            Some(t) => {
                self.current = Some(Track { title: Some(x), ..t });
            },
            None => {
                if top {
                    self.title = Some(x);
                }
            },
        }
    }

    fn set_performer(&mut self, top: bool, x: String)
        ensures
            final(self).model() == place_performer(old(self).model(), top, x@),
    {
        match self.current.take() {
            Some(t) => {
                self.current = Some(Track { performer: Some(x), ..t });
            },
            None => {
                if top {
                    self.performer = Some(x);
                }
            },
        }
    }

    fn set_file(&mut self, top: bool, f: File)
        ensures
            final(self).model() == place_file(old(self).model(), top, f.model()),
    {
        match self.current.take() {
            Some(t) => {
                self.current = Some(Track { file: Some(f), ..t });
            },
            None => {
                if top {
                    self.file = Some(f);
                }
            },
        }
    }

    fn commit(&mut self)
        ensures
            final(self).model() == (SheetModel {
                tracks: committed(old(self).model()),
                current: None,
                ..old(self).model()
            }),
    {
        match self.current.take() {
            Some(t) => {
                self.tracks.push(t);
                assert(track_models(self.tracks@) =~= track_models(old(self).tracks@).push(
                    t.model(),
                ));
            },
            None => {},
        }
    }

    fn feed(&mut self, line: &Vec<char>)
        ensures
            final(self).model() == step(old(self).model(), line@),
    {
        let t = trim(line);
        let ws = split_words(line);
        let top = !(line.len() > 0 && line[0] == '\t');
        if ws.len() < 2 {
            return;
        }
        proof {
            reveal_strlit("REM");
            reveal_strlit("TITLE");
            reveal_strlit("PERFORMER");
            reveal_strlit("FILE");
            reveal_strlit("TRACK");
            reveal_strlit("INDEX");
            assert("REM"@ =~= kw_rem());
            assert("TITLE"@ =~= kw_title());
            assert("PERFORMER"@ =~= kw_performer());
            assert("FILE"@ =~= kw_file());
            assert("TRACK"@ =~= kw_track());
            assert("INDEX"@ =~= kw_index());
        }
        let first = &ws[0];
        if word_is(first, "REM") {
            if ws.len() >= 3 {
                let key = string_of(&ws[1]);
                let value = string_of(&unquote_chars(join_words(&ws, 2)));
                let ghost before = self.rem@;
                self.rem.push((key, value));
                assert(comment_models(self.rem@) =~= comment_models(before).push(
                    (key@, value@),
                ));
            }
        } else if word_is(first, "TITLE") {
            let x = string_of(&quoted_chars(&slice_of(&t, 5, t.len())));
            self.set_title(top, x);
        } else if word_is(first, "PERFORMER") {
            let x = string_of(&quoted_chars(&slice_of(&t, 9, t.len())));
            self.set_performer(top, x);
        } else if word_is(first, "FILE") {
            let format = &ws[ws.len() - 1];
            let name = if format.len() <= t.len() {
                quoted_chars(&slice_of(&t, 4, t.len() - format.len()))
            } else {
                quoted_chars(&Vec::new())
            };
            proof {
                if format.len() > t.len() {
                    assert(slice(t@, 4, t@.len() - format@.len()) =~= seq![]);
                }
            }
            let f = File { name: string_of(&name), format: string_of(format) };
            self.set_file(top, f);
        } else if word_is(first, "TRACK") {
            self.commit();
            self.current = Some(Track { title: None, performer: None, file: None, start_time: None });
        } else if word_is(first, "INDEX") {
            if ws.len() >= 3 {
                match self.current.take() {
                    Some(tr) => {
                        self.current = Some(Track { start_time: Some(string_of(&ws[2])), ..tr });
                    },
                    None => {},
                }
            }
        }
    }
}

/// Reads the sheet that `input` describes.
fn parse_text(input: &str) -> (r: Parser)
    ensures
        r.model() == sheet_of(input@),
{
    let cs = chars_of(input);
    let mut p = Parser::new();
    let mut line: Vec<char> = Vec::new();
    let mut i: usize = 0;
    assert(cs@.subrange(0, 0) =~= seq![]);
    while i < cs.len()
        invariant
            i <= cs.len(),
            cs@ == input@,
            split_lines(cs@.subrange(0, i as int)).len() >= 1,
            line@ == split_lines(cs@.subrange(0, i as int)).last(),
            p.model() == run(split_lines(cs@.subrange(0, i as int)).drop_last()),
        decreases cs.len() - i,
    {
        let c = cs[i];
        let ghost pre = cs@.subrange(0, i as int);
        let ghost next = cs@.subrange(0, i + 1);
        assert(next.drop_last() =~= pre);
        let ghost lp = split_lines(pre);
        if c == '\n' {
            assert(lp =~= lp.drop_last().push(lp.last()));
            p.feed(&line);
            line = Vec::new();
            assert(split_lines(next).drop_last() =~= lp);
            assert(line@ =~= split_lines(next).last());
        } else {
            line.push(c);
            assert(split_lines(next).drop_last() =~= lp.drop_last());
        }
        i = i + 1;
    }
    assert(cs@.subrange(0, cs@.len() as int) =~= cs@);
    let ghost ls = split_lines(cs@);
    assert(ls =~= ls.drop_last().push(ls.last()));
    p.feed(&line);
    p.commit();
    p
}

/// The text between the first pair of double quotes in `line`; where there is
/// no such pair, the whole of `line`, trimmed. Never `None`.
pub fn extract_quoted_string(line: &str) -> (r: Option<String>)
    ensures
        r is Some,
        r->0@ == quoted(line@),
{
    let cs = chars_of(line);
    Some(string_of(&quoted_chars(&cs)))
}

impl CueSheet {
    pub open spec fn model(&self) -> SheetModel {
        SheetModel {
            comments: comment_models(self.rem@),
            title: opt_view(self.title),
            performer: opt_view(self.performer),
            file: file_model(self.file),
            tracks: track_models(self.tracks@),
            current: None,
        }
    }

    /// Parses the text of a cue sheet. Never fails: lines it does not know,
    /// and lines of a single word (a lone `TRACK` among them), are skipped,
    /// and fields that no line sets stay empty.
    pub fn parse(file_path: String, input: &str) -> (r: CueSheet)
        ensures
            r.file_path@ == file_path@,
            r.model() == sheet_of(input@),
            r.wave_file is None,
    {
        let p = parse_text(input);
        CueSheet {
            file_path,
            rem: p.rem,
            title: p.title,
            performer: p.performer,
            file: p.file,
            tracks: p.tracks,
            wave_file: None,
        }
    }
}

/// The number of `TRACK` lines among `lines`.
pub open spec fn count_track_lines(lines: Seq<Seq<char>>) -> nat
    decreases lines.len(),
{
    if lines.len() == 0 {
        0
    } else {
        count_track_lines(lines.drop_last()) + if is_track_line(lines.last()) {
            1nat
        } else {
            0nat
        }
    }
}

/// A malformed line leaves the parser as it was.
pub proof fn lemma_malformed_line_is_ignored(st: SheetModel, line: Seq<char>)
    requires
        is_malformed(line),
    ensures
        step(st, line) == st,
{
}

/// A `TRACK` line commits the open track, if there is one, behind the
/// committed ones, and opens a new empty track.
pub proof fn lemma_track_line_commits(st: SheetModel, line: Seq<char>)
    requires
        is_track_line(line),
    ensures
        step(st, line).tracks == committed(st),
        step(st, line).current == Some(empty_track()),
        st.current is None ==> step(st, line).tracks == st.tracks,
        st.current is Some ==> step(st, line).tracks == st.tracks.push(st.current->0),
{
}

proof fn lemma_run_counts_tracks(lines: Seq<Seq<char>>)
    ensures
        run(lines).tracks.len() + (if run(lines).current is Some {
            1nat
        } else {
            0nat
        }) == count_track_lines(lines),
    decreases lines.len(),
{
    if lines.len() > 0 {
        lemma_run_counts_tracks(lines.drop_last());
    }
}

/// No track is lost or counted twice: a sheet holds one track for each
/// `TRACK` line of its text.
pub proof fn lemma_one_track_per_track_line(input: Seq<char>)
    ensures
        sheet_of(input).tracks.len() == count_track_lines(split_lines(input)),
{
    lemma_run_counts_tracks(split_lines(input));
}

/// A `REM` line whose value words, joined, are wrapped in double quotes adds
/// the key and the value without the quotes to the comments, and nothing else.
pub proof fn lemma_rem_strips_quotes(
    st: SheetModel,
    line: Seq<char>,
    key: Seq<char>,
    value: Seq<char>,
)
    requires
        words(line).len() >= 3,
        words(line)[0] == kw_rem(),
        words(line)[1] == key,
        join_spaced(words(line).subrange(2, words(line).len() as int)) == seq!['"'] + value
            + seq!['"'],
    ensures
        step(st, line) == (SheetModel { comments: st.comments.push((key, value)), ..st }),
{
    let q = seq!['"'] + value + seq!['"'];
    assert(q.subrange(1, q.len() - 1) =~= value);
    assert(unquote(q) == value);
}

proof fn lemma_words_concat(p: Seq<char>, q: Seq<char>)
    requires
        p.len() > 0,
        is_ws(p.last()),
    ensures
        words(p + q) == words(p) + words(q),
    decreases q.len(),
{
    if q.len() == 0 {
        assert(p + q =~= p);
        assert(words(p) + words(q) =~= words(p));
    } else {
        let q1 = q.drop_last();
        let s = p + q;
        assert(s.drop_last() =~= p + q1);
        assert(s.last() == q.last());
        lemma_words_concat(p, q1);
        let c = q.last();
        if !is_ws(c) {
            if q.len() >= 2 {
                assert(s[s.len() - 2] == q[q.len() - 2]);
                if !is_ws(q[q.len() - 2]) {
                    lemma_words_nonempty(q1);
                    assert(words(s) =~= words(p) + words(q));
                } else {
                    assert(words(s) =~= words(p) + words(q));
                }
            } else {
                assert(s[s.len() - 2] == p.last());
                assert(words(s) =~= words(p) + words(q));
            }
        }
    }
}

proof fn lemma_index_from_first(s: Seq<char>, c: char, i: int, j: int)
    requires
        0 <= i <= j < s.len(),
        s[j] == c,
        forall|k: int| i <= k < j ==> s[k] != c,
    ensures
        index_from(s, c, i) == j,
    decreases j - i,
{
    if i < j {
        lemma_index_from_first(s, c, i + 1, j);
    }
}

proof fn lemma_words_of_word(w: Seq<char>)
    requires
        w.len() > 0,
        forall|i: int| 0 <= i < w.len() ==> !is_ws(w[i]),
    ensures
        words(w) == seq![w],
    decreases w.len(),
{
    if w.len() == 1 {
        assert(w.drop_last() =~= seq![]);
        assert(words(w.drop_last()) == Seq::<Seq<char>>::empty());
        assert(!is_ws(w.last()));
        assert(seq![w.last()] =~= w);
        assert(words(w) == Seq::<Seq<char>>::empty().push(seq![w.last()]));
        assert(Seq::<Seq<char>>::empty().push(seq![w.last()]) =~= seq![w]);
    } else {
        lemma_words_of_word(w.drop_last());
        assert(!is_ws(w[w.len() - 2]));
        assert(!is_ws(w.last()));
        assert(w.drop_last().push(w.last()) =~= w);
        assert(seq![w.drop_last()].update(0, w.drop_last().push(w.last())) =~= seq![w]);
    }
}

proof fn lemma_title_words(x: Seq<char>)
    ensures
        words(title_line(x)).len() >= 2,
        words(title_line(x))[0] == kw_title(),
{
    let line = title_line(x);
    let p = kw_title() + seq![' '];
    let q = seq!['"'] + x + seq!['"'];
    assert(line =~= p + q);
    assert(p.drop_last() =~= kw_title());
    lemma_words_of_word(kw_title());
    assert(words(p) == words(kw_title()));
    lemma_words_concat(p, q);
    lemma_words_nonempty(q);
}

/// The line `TITLE "x"`.
pub open spec fn title_line(x: Seq<char>) -> Seq<char> {
    kw_title() + seq![' ', '"'] + x + seq!['"']
}

/// With no track open, a sheet-level `TITLE "x"` line makes `x` the title of
/// the recording, for any `x` without double quotes.
pub proof fn lemma_sheet_title(st: SheetModel, x: Seq<char>)
    requires
        st.current is None,
        forall|i: int| 0 <= i < x.len() ==> x[i] != '"',
    ensures
        step(st, title_line(x)).title == Some(x),
{
    let line = title_line(x);
    lemma_title_words(x);
    assert(line[0] == 'T');
    assert(trim_start(line) == line);
    assert(trim_end(line) == line);
    assert(trimmed(line) == line);
    let r = slice(line, 5, line.len() as int);
    assert(r =~= seq![' ', '"'] + x + seq!['"']);
    lemma_index_from_first(r, '"', 0, 1);
    lemma_index_from_first(r, '"', 2, 2 + x.len() as int);
    assert(r.subrange(2, 2 + x.len() as int) =~= x);
}

proof fn lemma_split_lines_single(s: Seq<char>)
    requires
        forall|i: int| 0 <= i < s.len() ==> s[i] != '\n',
    ensures
        split_lines(s) == seq![s],
    decreases s.len(),
{
    if s.len() == 0 {
        assert(s =~= seq![]);
        assert(split_lines(s) =~= seq![s]);
    } else {
        lemma_split_lines_single(s.drop_last());
        assert(s.drop_last().push(s.last()) =~= s);
        assert(seq![s.drop_last()].update(0, s) =~= seq![s]);
    }
}

/// A text that is the single line `TITLE "x"`, for any `x` without double
/// quotes or line feeds, describes a recording titled `x`.
pub proof fn lemma_title_of_title_text(x: Seq<char>)
    requires
        forall|i: int| 0 <= i < x.len() ==> x[i] != '"' && x[i] != '\n',
    ensures
        sheet_of(title_line(x)).title == Some(x),
{
    let line = title_line(x);
    assert forall|i: int| 0 <= i < line.len() implies line[i] != '\n' by {
        if 7 <= i < 7 + x.len() {
            assert(line[i] == x[i - 7]);
        }
    }
    lemma_split_lines_single(line);
    let ls = split_lines(line);
    assert(ls.drop_last() =~= seq![]);
    assert(run(ls.drop_last()) == empty_sheet());
    lemma_sheet_title(empty_sheet(), x);
}

/// The parser after the lines `ys`, from the state `st`.
pub open spec fn run_on(st: SheetModel, ys: Seq<Seq<char>>) -> SheetModel
    decreases ys.len(),
{
    if ys.len() == 0 {
        st
    } else {
        step(run_on(st, ys.drop_last()), ys.last())
    }
}

proof fn lemma_run_concat(xs: Seq<Seq<char>>, ys: Seq<Seq<char>>)
    ensures
        run(xs + ys) == run_on(run(xs), ys),
    decreases ys.len(),
{
    if ys.len() == 0 {
        assert(xs + ys =~= xs);
    } else {
        assert((xs + ys).drop_last() =~= xs + ys.drop_last());
        assert((xs + ys).last() == ys.last());
        lemma_run_concat(xs, ys.drop_last());
    }
}

proof fn lemma_split_lines_len(s: Seq<char>)
    ensures
        split_lines(s).len() >= 1,
    decreases s.len(),
{
    if s.len() > 0 {
        lemma_split_lines_len(s.drop_last());
    }
}

/// A text that is empty or ends with a line feed.
pub open spec fn ends_a_line(s: Seq<char>) -> bool {
    s.len() == 0 || s.last() == '\n'
}

proof fn lemma_split_lines_concat(a: Seq<char>, t: Seq<char>)
    requires
        ends_a_line(a),
    ensures
        split_lines(a + t) == split_lines(a).drop_last() + split_lines(t),
    decreases t.len(),
{
    lemma_split_lines_len(a);
    if t.len() == 0 {
        assert(a + t =~= a);
        if a.len() == 0 {
            assert(split_lines(a) =~= seq![seq![]]);
        }
        assert(split_lines(a).last() =~= seq![]);
        assert(split_lines(a) =~= split_lines(a).drop_last() + split_lines(t));
    } else {
        let s = a + t;
        let t1 = t.drop_last();
        assert(s.drop_last() =~= a + t1);
        assert(s.last() == t.last());
        lemma_split_lines_concat(a, t1);
        lemma_split_lines_len(t1);
        let pre = split_lines(a).drop_last();
        let b = split_lines(t1);
        if t.last() == '\n' {
            assert((pre + b).push(seq![]) =~= pre + b.push(seq![]));
        } else {
            assert((pre + b).update((pre + b).len() - 1, (pre + b).last().push(t.last())) =~= pre
                + b.update(b.len() - 1, b.last().push(t.last())));
        }
    }
}

/// A line that the parser skips: fewer than two words, a first word that is
/// not a keyword, or a `REM` or `INDEX` line of fewer than three words.
pub open spec fn is_malformed(l: Seq<char>) -> bool {
    ||| words(l).len() < 2
    ||| !is_known_keyword(words(l)[0])
    ||| words(l).len() < 3 && (words(l)[0] == kw_rem() || words(l)[0] == kw_index())
}

/// A malformed line, put anywhere between the lines of a text, leaves the
/// sheet that the text describes as it was.
pub proof fn lemma_malformed_line_in_text(s1: Seq<char>, l: Seq<char>, s2: Seq<char>)
    requires
        ends_a_line(s1),
        forall|i: int| 0 <= i < l.len() ==> l[i] != '\n',
        is_malformed(l),
    ensures
        sheet_of(s1 + l + seq!['\n'] + s2) == sheet_of(s1 + s2),
{
    let ln = l + seq!['\n'];
    assert(ln.drop_last() =~= l);
    lemma_split_lines_single(l);
    assert(split_lines(ln) == seq![l].push(seq![]));
    assert(ends_a_line(ln));
    lemma_split_lines_concat(ln, s2);
    assert(split_lines(ln).drop_last() =~= seq![l]);
    lemma_split_lines_concat(s1, ln + s2);
    assert(s1 + l + seq!['\n'] + s2 =~= s1 + (ln + s2));
    lemma_split_lines_concat(s1, s2);
    let a = split_lines(s1).drop_last();
    let b = split_lines(s2);
    assert(split_lines(s1 + (ln + s2)) =~= (a + seq![l]) + b);
    lemma_run_concat(a + seq![l], b);
    lemma_run_concat(a, b);
    assert((a + seq![l]).drop_last() =~= a);
    lemma_malformed_line_is_ignored(run(a), l);
    assert(run(a + seq![l]) == run(a));
}

/// Whether a line is a `TITLE` line that the parser acts on.
pub open spec fn is_title_line(line: Seq<char>) -> bool {
    words(line).len() >= 2 && words(line)[0] == kw_title()
}

/// Whether one of the first `n` lines is a `TRACK` line.
pub open spec fn track_line_before(ys: Seq<Seq<char>>, n: int) -> bool {
    exists|j: int| 0 <= j < n && #[trigger] is_track_line(ys[j])
}

proof fn lemma_no_track_keeps_closed(xs: Seq<Seq<char>>)
    requires
        forall|i: int| 0 <= i < xs.len() ==> !is_track_line(#[trigger] xs[i]),
    ensures
        run(xs).current is None,
    decreases xs.len(),
{
    if xs.len() > 0 {
        let xs1 = xs.drop_last();
        assert forall|i: int| 0 <= i < xs1.len() implies !is_track_line(#[trigger] xs1[i]) by {
            assert(xs1[i] == xs[i]);
        }
        lemma_no_track_keeps_closed(xs1);
        assert(!is_track_line(xs[xs.len() - 1]));
    }
}

proof fn lemma_title_kept(st: SheetModel, ys: Seq<Seq<char>>, x: Seq<char>)
    requires
        st.title == Some(x),
        st.current is None,
        forall|i: int|
            0 <= i < ys.len() && is_title_line(#[trigger] ys[i]) && at_sheet_level(ys[i])
                ==> track_line_before(ys, i),
    ensures
        run_on(st, ys).title == Some(x),
        track_line_before(ys, ys.len() as int) ==> run_on(st, ys).current is Some,
    decreases ys.len(),
{
    if ys.len() > 0 {
        let n = ys.len() - 1;
        let ys1 = ys.drop_last();
        assert forall|i: int|
            0 <= i < ys1.len() && is_title_line(#[trigger] ys1[i]) && at_sheet_level(
                ys1[i],
            ) implies track_line_before(ys1, i) by {
            assert(ys1[i] == ys[i]);
            assert(track_line_before(ys, i));
            let j = choose|j: int| 0 <= j < i && #[trigger] is_track_line(ys[j]);
            assert(ys1[j] == ys[j]);
        }
        lemma_title_kept(st, ys1, x);
        let l = ys[n];
        assert(ys.last() == l);
        if is_title_line(l) && at_sheet_level(l) {
            assert(track_line_before(ys, n));
            let j = choose|j: int| 0 <= j < n && #[trigger] is_track_line(ys[j]);
            assert(ys1[j] == ys[j]);
            assert(track_line_before(ys1, n));
        }
        if track_line_before(ys, ys.len() as int) {
            let j = choose|j: int| 0 <= j < ys.len() && #[trigger] is_track_line(ys[j]);
            if j < n {
                assert(ys1[j] == ys[j]);
                assert(track_line_before(ys1, n));
            }
        }
    }
}

/// With no `TRACK` line before it, a sheet-level `TITLE "x"` line, for any
/// `x` without double quotes or line feeds, makes `x` the title of the
/// recording, unless a later sheet-level `TITLE` line comes before the first
/// `TRACK` line.
pub proof fn lemma_title_in_text(s1: Seq<char>, x: Seq<char>, s2: Seq<char>)
    requires
        ends_a_line(s1),
        forall|i: int| 0 <= i < x.len() ==> x[i] != '"' && x[i] != '\n',
        forall|i: int|
            0 <= i < split_lines(s1).len() ==> !is_track_line(#[trigger] split_lines(s1)[i]),
        forall|i: int|
            0 <= i < split_lines(s2).len() && is_title_line(#[trigger] split_lines(s2)[i])
                && at_sheet_level(split_lines(s2)[i]) ==> track_line_before(split_lines(s2), i),
    ensures
        sheet_of(s1 + title_line(x) + seq!['\n'] + s2).title == Some(x),
{
    let l = title_line(x);
    assert forall|i: int| 0 <= i < l.len() implies l[i] != '\n' by {
        if 7 <= i < 7 + x.len() {
            assert(l[i] == x[i - 7]);
        }
    }
    let ln = l + seq!['\n'];
    assert(ln.drop_last() =~= l);
    lemma_split_lines_single(l);
    assert(split_lines(ln) == seq![l].push(seq![]));
    lemma_split_lines_concat(ln, s2);
    assert(split_lines(ln).drop_last() =~= seq![l]);
    lemma_split_lines_concat(s1, ln + s2);
    assert(s1 + l + seq!['\n'] + s2 =~= s1 + (ln + s2));
    lemma_split_lines_len(s1);
    let a = split_lines(s1).drop_last();
    let b = split_lines(s2);
    assert(split_lines(s1 + (ln + s2)) =~= (a + seq![l]) + b);
    assert forall|i: int| 0 <= i < a.len() implies !is_track_line(#[trigger] a[i]) by {
        assert(a[i] == split_lines(s1)[i]);
    }
    lemma_no_track_keeps_closed(a);
    lemma_sheet_title(run(a), x);
    assert((a + seq![l]).drop_last() =~= a);
    assert(run(a + seq![l]) == step(run(a), l));
    lemma_title_words(x);
    assert(step(run(a), l).current is None);
    lemma_title_kept(run(a + seq![l]), b, x);
    lemma_run_concat(a + seq![l], b);
}

/// Once committed, a track stays as it was, in its place: later lines only
/// add tracks after it.
pub proof fn lemma_committed_tracks_stay(st: SheetModel, ys: Seq<Seq<char>>)
    ensures
        run_on(st, ys).tracks.len() >= st.tracks.len(),
        run_on(st, ys).tracks.subrange(0, st.tracks.len() as int) == st.tracks,
    decreases ys.len(),
{
    if ys.len() > 0 {
        lemma_committed_tracks_stay(st, ys.drop_last());
        let prev = run_on(st, ys.drop_last());
        let next = step(prev, ys.last());
        assert(next.tracks == prev.tracks || next.tracks == committed(prev));
        assert(prev.tracks.subrange(0, st.tracks.len() as int) == st.tracks);
        if next.tracks != prev.tracks {
            if prev.current is Some {
                assert(next.tracks.subrange(0, st.tracks.len() as int) =~= prev.tracks.subrange(
                    0,
                    st.tracks.len() as int,
                ));
            }
        }
    }
}

/// With no `TRACK` line before it, a sheet-level `TITLE "x"` line that ends
/// the text, for any `x` without double quotes or line feeds, makes `x` the
/// title of the recording.
pub proof fn lemma_title_ends_text(s1: Seq<char>, x: Seq<char>)
    requires
        ends_a_line(s1),
        forall|i: int| 0 <= i < x.len() ==> x[i] != '"' && x[i] != '\n',
        forall|i: int|
            0 <= i < split_lines(s1).len() ==> !is_track_line(#[trigger] split_lines(s1)[i]),
    ensures
        sheet_of(s1 + title_line(x)).title == Some(x),
{
    let l = title_line(x);
    assert forall|i: int| 0 <= i < l.len() implies l[i] != '\n' by {
        if 7 <= i < 7 + x.len() {
            assert(l[i] == x[i - 7]);
        }
    }
    lemma_split_lines_single(l);
    lemma_split_lines_concat(s1, l);
    lemma_split_lines_len(s1);
    let a = split_lines(s1).drop_last();
    assert(split_lines(s1 + l) =~= a + seq![l]);
    assert forall|i: int| 0 <= i < a.len() implies !is_track_line(#[trigger] a[i]) by {
        assert(a[i] == split_lines(s1)[i]);
    }
    lemma_no_track_keeps_closed(a);
    lemma_sheet_title(run(a), x);
    assert((a + seq![l]).drop_last() =~= a);
    lemma_title_words(x);
    assert(step(run(a), l).current is None);
}

proof fn lemma_run_on_concat(st: SheetModel, p: Seq<Seq<char>>, q: Seq<Seq<char>>)
    ensures
        run_on(st, p + q) == run_on(run_on(st, p), q),
    decreases q.len(),
{
    if q.len() == 0 {
        assert(p + q =~= p);
    } else {
        assert((p + q).drop_last() =~= p + q.drop_last());
        assert((p + q).last() == q.last());
        lemma_run_on_concat(st, p, q.drop_last());
    }
}

/// No line of `seg` is a `TRACK` line.
pub open spec fn no_track_line(seg: Seq<Seq<char>>) -> bool {
    forall|i: int| 0 <= i < seg.len() ==> !is_track_line(#[trigger] seg[i])
}

proof fn lemma_segment_keeps_tracks(st1: SheetModel, st2: SheetModel, seg: Seq<Seq<char>>)
    requires
        no_track_line(seg),
        st1.current == st2.current,
    ensures
        run_on(st1, seg).tracks == st1.tracks,
        run_on(st1, seg).current == run_on(st2, seg).current,
        st1.current is Some ==> run_on(st1, seg).current is Some,
    decreases seg.len(),
{
    if seg.len() > 0 {
        let seg1 = seg.drop_last();
        assert forall|i: int| 0 <= i < seg1.len() implies !is_track_line(#[trigger] seg1[i]) by {
            assert(seg1[i] == seg[i]);
        }
        lemma_segment_keeps_tracks(st1, st2, seg1);
        assert(!is_track_line(seg[seg.len() - 1]));
    }
}

/// The track that the lines `seg` make of an empty track.
pub open spec fn track_of(seg: Seq<Seq<char>>) -> TrackModel {
    run_on(SheetModel { current: Some(empty_track()), ..empty_sheet() }, seg).current->0
}

/// The track that a `TRACK` line opens is what the lines up to the next
/// `TRACK` line, or the end of the text, make of an empty track: it stands in
/// the sheet after the tracks of the lines before it, whatever follows.
pub proof fn lemma_track_from_segment(
    xs: Seq<Seq<char>>,
    t: Seq<char>,
    seg: Seq<Seq<char>>,
    ys: Seq<Seq<char>>,
)
    requires
        is_track_line(t),
        no_track_line(seg),
        ys.len() == 0 || is_track_line(ys[0]),
    ensures
        committed(run(xs + seq![t] + seg + ys)).len() > count_track_lines(xs),
        committed(run(xs + seq![t] + seg + ys))[count_track_lines(xs) as int] == track_of(seg),
{
    let st0 = run(xs);
    lemma_run_counts_tracks(xs);
    let st1 = step(st0, t);
    assert(st1.tracks == committed(st0));
    assert(st1.tracks.len() == count_track_lines(xs));
    let base = SheetModel { current: Some(empty_track()), ..empty_sheet() };
    lemma_segment_keeps_tracks(st1, base, seg);
    lemma_segment_keeps_tracks(base, st1, seg);
    let st2 = run_on(st1, seg);
    assert(st2.current == Some(track_of(seg)));
    let n = count_track_lines(xs) as int;
    lemma_run_concat(xs, seq![t] + seg + ys);
    assert(xs + seq![t] + seg + ys =~= xs + (seq![t] + seg + ys));
    lemma_run_on_concat(st0, seq![t] + seg, ys);
    lemma_run_on_concat(st0, seq![t], seg);
    assert(run_on(st0, seq![t]) == step(run_on(st0, seq![t].drop_last()), t));
    assert(seq![t].drop_last() =~= seq![]);
    assert(run_on(st0, seq![t]) == st1);
    assert(seq![t] + seg + ys =~= (seq![t] + seg) + ys);
    let fin = run(xs + seq![t] + seg + ys);
    assert(fin == run_on(st2, ys));
    if ys.len() == 0 {
        assert(fin == st2);
        assert(committed(st2) == st2.tracks.push(track_of(seg)));
    } else {
        let st3 = step(st2, ys[0]);
        assert(st3.tracks == st2.tracks.push(track_of(seg)));
        let rest = ys.drop_first();
        assert(ys =~= seq![ys[0]] + rest);
        lemma_run_on_concat(st2, seq![ys[0]], rest);
        assert(seq![ys[0]].drop_last() =~= seq![]);
        assert(run_on(st2, seq![ys[0]]) == step(run_on(st2, seq![ys[0]].drop_last()), ys[0]));
        assert(fin == run_on(st3, rest));
        lemma_committed_tracks_stay(st3, rest);
        let tr = run_on(st3, rest).tracks;
        assert(tr.subrange(0, st3.tracks.len() as int)[n] == st3.tracks[n]);
        assert(tr[n] == track_of(seg));
        assert(committed(fin)[n] == tr[n]);
    }
}

} // verus!
