//! The engine builder: a scan over the lines of an engine definition that
//! gathers name, rated power and torque, and yields a record when all three
//! were found.

use crate::fields::{
    colon_value, colon_value_chars, lemma_colon_value_found, object_name_chars, rated_power,
    rated_power_chars,
};
use crate::lines::{file_split_space, lines_of_file};
use crate::marks::{
    last_marked, lemma_last_marked, lemma_name_stays, marked, name_among, name_given,
};
use crate::pattern::{contains, contains_chars, occurs_at};
use crate::records::{EngineInfo, EngineInfoView};
use crate::text::{chars_of, string_of};
use vstd::prelude::*;

verus! {

/// Marks a line of the `info` array.
pub open spec fn info_marker() -> Seq<char> {
    "info[]:"@
}

/// Marks the line that gives the torque.
pub open spec fn torque_marker() -> Seq<char> {
    "torque:"@
}

/// The identifier of an engine definition, from its folder and file names.
pub open spec fn engine_code(folder: Seq<char>, file: Seq<char>) -> Seq<char> {
    "/def/vehicle/truck/"@ + folder + "/engine/"@ + file
}

/// The rated power that one line gives: its rated-power class where it
/// carries the info marker and has one, else the empty text.
pub open spec fn power_given(line: Seq<char>) -> Seq<char> {
    if contains(line, info_marker()) {
        match rated_power(line) {
            Some(power) => power,
            None => Seq::empty(),
        }
    } else {
        Seq::empty()
    }
}

/// The rated power that lines give: the one given by the first line that
/// gives one that is not empty; the empty text where no line does.
pub open spec fn power_among(lines: Seq<Seq<char>>) -> Seq<char>
    decreases lines.len(),
{
    if lines.len() == 0 {
        Seq::empty()
    } else if power_among(lines.drop_last()).len() > 0 {
        power_among(lines.drop_last())
    } else {
        power_given(lines.last())
    }
}

/// The torque that one line gives: its colon value.
pub open spec fn torque_given(line: Seq<char>) -> Seq<char> {
    match colon_value(line) {
        Some(value) => value,
        None => Seq::empty(),
    }
}

/// The torque that lines give: the one given by the last line that carries
/// the torque marker; the empty text where no line carries it.
pub open spec fn torque_among(lines: Seq<Seq<char>>) -> Seq<char> {
    match last_marked(lines, torque_marker()) {
        Some(i) => torque_given(lines[i]),
        None => Seq::empty(),
    }
}

/// What the scan of an engine definition has gathered so far. An empty field
/// has not been found yet.
#[derive(Debug)]
pub struct EngineScan {
    /// The engine's name.
    pub name: String,
    /// The rated-power class.
    pub cv: String,
    /// The torque.
    pub nm: String,
}

/// What an `EngineScan` holds, as mathematical text.
pub ghost struct EngineScanView {
    pub name: Seq<char>,
    pub cv: Seq<char>,
    pub nm: Seq<char>,
}

impl View for EngineScan {
    type V = EngineScanView;

    open spec fn view(&self) -> EngineScanView {
        EngineScanView { name: self.name@, cv: self.cv@, nm: self.nm@ }
    }
}

/// The scan before its first line: nothing found.
pub open spec fn engine_start() -> EngineScanView {
    EngineScanView { name: Seq::empty(), cv: Seq::empty(), nm: Seq::empty() }
}

/// The scan after one more line. The three fields are taken independently of
/// each other: the name while none has been found, the rated power while none
/// has been found, the torque from every line with the torque marker.
pub open spec fn engine_step(st: EngineScanView, line: Seq<char>) -> EngineScanView {
    EngineScanView {
        name: if st.name.len() == 0 {
            name_given(line)
        } else {
            st.name
        },
        cv: if st.cv.len() == 0 {
            power_given(line)
        } else {
            st.cv
        },
        nm: if contains(line, torque_marker()) {
            torque_given(line)
        } else {
            st.nm
        },
    }
}

/// The scan after all of `lines`, taken in order.
pub open spec fn engine_scan(lines: Seq<Seq<char>>) -> EngineScanView
    decreases lines.len(),
{
    if lines.len() == 0 {
        engine_start()
    } else {
        engine_step(engine_scan(lines.drop_last()), lines.last())
    }
}

/// What lines give to an engine record: the name and the rated power of the
/// first lines that give them, the torque of the last line that gives one.
pub open spec fn engine_found(lines: Seq<Seq<char>>) -> EngineScanView {
    EngineScanView { name: name_among(lines), cv: power_among(lines), nm: torque_among(lines) }
}

/// The record of a finished scan: present exactly when name, rated power and
/// torque were all found.
pub open spec fn engine_finish(st: EngineScanView, folder: Seq<char>, file: Seq<char>) -> Option<
    EngineInfoView,
> {
    if st.name.len() == 0 || st.cv.len() == 0 || st.nm.len() == 0 {
        None
    } else {
        Some(EngineInfoView { name: st.name, cv: st.cv, nm: st.nm, code: engine_code(folder, file) })
    }
}

/// The engine record that the given lines define: present exactly when they
/// give a name, a rated power and a torque.
pub open spec fn engine_record(lines: Seq<Seq<char>>, folder: Seq<char>, file: Seq<char>) -> Option<
    EngineInfoView,
> {
    engine_finish(engine_found(lines), folder, file)
}

/// The engine record that the text of a file defines. A file that could not
/// be read has no lines; it defines nothing, and neither does a text without
/// a line terminator.
pub open spec fn engine_of_text(text: Option<Seq<char>>, folder: Seq<char>, file: Seq<char>) -> Option<
    EngineInfoView,
> {
    match lines_of_file(text) {
        Some(lines) => engine_record(lines, folder, file),
        None => None,
    }
}

/// A line with the torque marker has a colon value: the marker ends in a
/// colon.
pub proof fn lemma_torque_line_has_value(line: Seq<char>)
    requires
        contains(line, torque_marker()),
    ensures
        colon_value(line) is Some,
{
    reveal_strlit("torque:");
    let i = choose|i: int| occurs_at(line, torque_marker(), i);
    assert(line.subrange(i, i + 7)[6] == ':');
    assert(line[i + 6] == ':');
    lemma_colon_value_found(line);
}

/// The scan over lines holds what the lines give.
pub proof fn lemma_engine_scan(lines: Seq<Seq<char>>)
    ensures
        engine_scan(lines) == engine_found(lines),
    decreases lines.len(),
{
    if lines.len() > 0 {
        let before = lines.drop_last();
        lemma_engine_scan(before);
        lemma_last_marked(before, torque_marker());
        if last_marked(before, torque_marker()) is Some {
            let i = last_marked(before, torque_marker())->0;
            assert(marked(before, torque_marker(), i));
            assert(before[i] == lines[i]);
        }
    }
}

/// Name and rated power are captured once: what the first `k` lines give of
/// them is what all the lines give.
pub proof fn lemma_engine_first_stays(lines: Seq<Seq<char>>, k: int)
    requires
        0 <= k <= lines.len(),
    ensures
        name_among(lines.take(k)).len() > 0 ==> engine_found(lines).name == name_among(
            lines.take(k),
        ),
        power_among(lines.take(k)).len() > 0 ==> engine_found(lines).cv == power_among(
            lines.take(k),
        ),
{
    if name_among(lines.take(k)).len() > 0 {
        lemma_name_stays(lines, k);
    }
    if power_among(lines.take(k)).len() > 0 {
        lemma_power_stays(lines, k);
    }
}

/// A rated power, once given, stays.
proof fn lemma_power_stays(lines: Seq<Seq<char>>, k: int)
    requires
        0 <= k <= lines.len(),
        power_among(lines.take(k)).len() > 0,
    ensures
        power_among(lines) == power_among(lines.take(k)),
    decreases lines.len(),
{
    if k == lines.len() {
        assert(lines.take(k) =~= lines);
    } else {
        assert(lines.drop_last().take(k) =~= lines.take(k));
        lemma_power_stays(lines.drop_last(), k);
    }
}

/// Without a line that carries the torque marker there is no record.
pub proof fn lemma_engine_needs_torque(lines: Seq<Seq<char>>, folder: Seq<char>, file: Seq<char>)
    requires
        forall|i: int| 0 <= i < lines.len() ==> !contains(#[trigger] lines[i], torque_marker()),
    ensures
        engine_record(lines, folder, file) is None,
{
    lemma_last_marked(lines, torque_marker());
    if last_marked(lines, torque_marker()) is Some {
        let i = last_marked(lines, torque_marker())->0;
        assert(marked(lines, torque_marker(), i));
        assert(!contains(lines[i], torque_marker()));
    }
}

impl EngineScan {
    /// A scan that has found nothing yet.
    pub fn new() -> (st: Self)
        ensures
            st@ == engine_start(),
    {
        EngineScan { name: String::new(), cv: String::new(), nm: String::new() }
    }

    /// Takes one more line into the scan.
    pub fn step(&mut self, line: &String)
        ensures
            final(self)@ == engine_step(old(self)@, line@),
    {
        let chars = chars_of(line.as_str());
        if self.name.as_str().is_empty() && contains_chars(&chars, &chars_of("name:")) {
            match object_name_chars(&chars) {
                Some(name) => {
                    self.name = string_of(&name);
                },
                None => {},
            }
        }
        if self.cv.as_str().is_empty() && contains_chars(&chars, &chars_of("info[]:")) {
            match rated_power_chars(&chars) {
                Some(cv) => {
                    self.cv = string_of(&cv);
                },
                None => {},
            }
        }
        if contains_chars(&chars, &chars_of("torque:")) {
            proof {
                lemma_torque_line_has_value(chars@);
            }
            match colon_value_chars(&chars) {
                Some(nm) => {
                    self.nm = string_of(&nm);
                },
                None => {},
            }
        }
        proof {
            let after = engine_step(old(self)@, line@);
            assert(self@.name =~= after.name);
            assert(self@.cv =~= after.cv);
        }
    }

    /// Ends the scan and gives the record it found.
    pub fn finish(self, folder_name: &String, file_name: &String) -> (r: Option<EngineInfo>)
        ensures
            r.deep_view() == engine_finish(self@, folder_name@, file_name@),
    {
        if self.name.as_str().is_empty() || self.cv.as_str().is_empty()
            || self.nm.as_str().is_empty() {
            return None;
        }
        let mut code = String::from_str("/def/vehicle/truck/");
        code.append(folder_name.as_str());
        code.append("/engine/");
        code.append(file_name.as_str());
        Some(EngineInfo { name: self.name, cv: self.cv, nm: self.nm, code })
    }
}

/// Builds the engine record that the given lines define.
pub fn engine_from_lines(lines: &Vec<String>, folder_name: &String, file_name: &String) -> (r:
    Option<EngineInfo>)
    ensures
        r.deep_view() == engine_record(lines.deep_view(), folder_name@, file_name@),
        r matches Some(e) ==> EngineInfo::valid(e@),
{
    let mut scan = EngineScan::new();
    let mut i: usize = 0;
    assert(lines.deep_view().take(0) =~= Seq::<Seq<char>>::empty());
    while i < lines.len()
        invariant
            i <= lines.len(),
            scan@ == engine_scan(lines.deep_view().take(i as int)),
        decreases lines.len() - i,
    {
        proof {
            let now = lines.deep_view().take(i + 1);
            assert(now.drop_last() =~= lines.deep_view().take(i as int));
            assert(now.last() == lines@[i as int]@);
        }
        scan.step(&lines[i]);
        i += 1;
    }
    proof {
        assert(lines.deep_view().take(lines.len() as int) =~= lines.deep_view());
        lemma_engine_scan(lines.deep_view());
    }
    scan.finish(folder_name, file_name)
}

/// Builds the engine record of a definition file from the file's text;
/// `None` for the text of a file that could not be read.
pub fn read_engine_file(text: &Option<String>, folder_name: &String, file_name: &String) -> (r:
    Option<EngineInfo>)
    ensures
        r.deep_view() == engine_of_text(text.deep_view(), folder_name@, file_name@),
        r matches Some(e) ==> EngineInfo::valid(e@),
{
    match file_split_space(text) {
        Some(lines) => engine_from_lines(&lines, folder_name, file_name),
        None => None,
    }
}

} // verus!
