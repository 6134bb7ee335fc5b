//! The transmission builder: a scan over the lines of a transmission
//! definition that gathers the name, counts the forward ratios, remembers
//! where the first and the last of them stand, and notes a retarder.

use crate::fields::{colon_value, get_normal_value, object_name_chars};
use crate::lines::{file_split_space, lines_of_file};
use crate::marks::{
    any_marked, count_marked, first_marked, last_marked, lemma_count_marked, lemma_first_marked,
    lemma_last_marked, lemma_name_stays, marked, name_among, name_given,
};
use crate::pattern::{contains, contains_chars, occurs_at};
use crate::records::{range_separator, TransmissionData, TransmissionDataView};
use crate::text::{chars_of, decimal, decimal_string, string_of};
use vstd::prelude::*;

verus! {

/// Marks a line that gives one forward ratio.
pub open spec fn ratios_marker() -> Seq<char> {
    "ratios_forward["@
}

/// Marks the line that declares a retarder.
pub open spec fn retarder_marker() -> Seq<char> {
    "retarder:"@
}

/// The identifier of a transmission definition, from its folder and file names.
pub open spec fn transmission_code(folder: Seq<char>, file: Seq<char>) -> Seq<char> {
    "/def/vehicle/truck/"@ + folder + "/transmission/"@ + file
}

/// The ratio range read from the lines at positions `first` and `last`: the
/// colon values of the two lines, written `first - last`; nothing where
/// either line has no colon value.
pub open spec fn ratio_range(lines: Seq<Seq<char>>, first: int, last: int) -> Option<Seq<char>> {
    match (colon_value(lines[first]), colon_value(lines[last])) {
        (Some(a), Some(b)) => Some(a + range_separator() + b),
        _ => None,
    }
}

/// What the scan of a transmission definition has gathered so far.
#[derive(Debug)]
pub struct TransmissionScan {
    /// The number of lines taken so far.
    pub seen: usize,
    /// The name; empty while none has been found.
    pub name: String,
    /// The number of forward-ratio lines met.
    pub speeds: usize,
    /// Whether a retarder line was met.
    pub retarder: bool,
    /// The position of the first forward-ratio line.
    pub first: Option<usize>,
    /// The position of the latest forward-ratio line after the first.
    pub last: Option<usize>,
}

/// What a `TransmissionScan` holds, as mathematical values.
pub ghost struct TransmissionScanView {
    pub seen: nat,
    pub name: Seq<char>,
    pub speeds: nat,
    pub retarder: bool,
    pub first: Option<nat>,
    pub last: Option<nat>,
}

/// A position, as a natural number.
pub open spec fn position(p: Option<usize>) -> Option<nat> {
    match p {
        Some(i) => Some(i as nat),
        None => None,
    }
}

impl View for TransmissionScan {
    type V = TransmissionScanView;

    open spec fn view(&self) -> TransmissionScanView {
        TransmissionScanView {
            seen: self.seen as nat,
            name: self.name@,
            speeds: self.speeds as nat,
            retarder: self.retarder,
            first: position(self.first),
            last: position(self.last),
        }
    }
}

/// The scan before its first line.
pub open spec fn transmission_start() -> TransmissionScanView {
    TransmissionScanView {
        seen: 0,
        name: Seq::empty(),
        speeds: 0,
        retarder: false,
        first: None,
        last: None,
    }
}

/// The scan after one more line, which stands at position `st.seen`. What
/// the line gives is taken independently for each field: the name while none
/// has been found; a forward ratio from every line with the forward-ratio
/// marker, the first such line remembered as the first position and each
/// later one as the last; a retarder from every line with the retarder
/// marker.
pub open spec fn transmission_step(st: TransmissionScanView, line: Seq<char>) -> TransmissionScanView {
    let counted = contains(line, ratios_marker());
    TransmissionScanView {
        seen: st.seen + 1,
        name: if st.name.len() == 0 {
            name_given(line)
        } else {
            st.name
        },
        speeds: if counted {
            st.speeds + 1
        } else {
            st.speeds
        },
        retarder: st.retarder || contains(line, retarder_marker()),
        first: if counted && st.first is None {
            Some(st.seen)
        } else {
            st.first
        },
        last: if counted && st.first is Some {
            Some(st.seen)
        } else {
            st.last
        },
    }
}

/// The scan after all of `lines`, taken in order.
pub open spec fn transmission_scan(lines: Seq<Seq<char>>) -> TransmissionScanView
    decreases lines.len(),
{
    if lines.len() == 0 {
        transmission_start()
    } else {
        transmission_step(transmission_scan(lines.drop_last()), lines.last())
    }
}

/// What lines give to a transmission record: the name of the first line that
/// gives one, the number of lines with the forward-ratio marker, whether any
/// line carries the retarder marker, the position of the first line with the
/// forward-ratio marker and, where it is another line, that of the last.
pub open spec fn transmission_found(lines: Seq<Seq<char>>) -> TransmissionScanView {
    let first = first_marked(lines, ratios_marker());
    let last = last_marked(lines, ratios_marker());
    TransmissionScanView {
        seen: lines.len(),
        name: name_among(lines),
        speeds: count_marked(lines, ratios_marker()),
        retarder: any_marked(lines, retarder_marker()),
        first: match first {
            Some(i) => Some(i as nat),
            None => None,
        },
        last: match (first, last) {
            (Some(i), Some(j)) => if i < j {
                Some(j as nat)
            } else {
                None
            },
            _ => None,
        },
    }
}

/// The record of a finished scan over `lines`: present exactly when a first
/// and a later forward-ratio line were met, both yield a ratio, and a name
/// was found.
pub open spec fn transmission_finish(
    st: TransmissionScanView,
    lines: Seq<Seq<char>>,
    folder: Seq<char>,
    file: Seq<char>,
) -> Option<TransmissionDataView> {
    match (st.first, st.last) {
        (Some(first), Some(last)) => match ratio_range(lines, first as int, last as int) {
            Some(ratio) => {
                if st.name.len() == 0 || st.speeds == 0 {
                    None
                } else {
                    Some(
                        TransmissionDataView {
                            name: st.name,
                            speeds: decimal(st.speeds),
                            retarder: st.retarder,
                            ratio,
                            code: transmission_code(folder, file),
                        },
                    )
                }
            },
            None => None,
        },
        _ => None,
    }
}

/// The transmission record that the given lines define. It is present
/// exactly when at least two lines carry the forward-ratio marker, the first
/// and the last of them have a colon value, and the lines give a name. Its
/// speed count is the numeral of the number of lines with the forward-ratio
/// marker, its ratio range is read from the first and the last of them, and
/// it has a retarder exactly when some line carries the retarder marker.
pub open spec fn transmission_record(
    lines: Seq<Seq<char>>,
    folder: Seq<char>,
    file: Seq<char>,
) -> Option<TransmissionDataView> {
    transmission_finish(transmission_found(lines), lines, folder, file)
}

/// The transmission record that the text of a file defines. A file that could
/// not be read has no lines; it defines nothing, and neither does a text
/// without a line terminator.
pub open spec fn transmission_of_text(
    text: Option<Seq<char>>,
    folder: Seq<char>,
    file: Seq<char>,
) -> Option<TransmissionDataView> {
    match lines_of_file(text) {
        Some(lines) => transmission_record(lines, folder, file),
        None => None,
    }
}

/// What holds of every scan: the positions it remembers lie among the lines
/// taken, the first before the last, and it has met at least one
/// forward-ratio line for each position it remembers.
pub open spec fn scan_in_order(st: TransmissionScanView) -> bool {
    &&& st.speeds <= st.seen
    &&& st.first matches Some(first) ==> first < st.seen && st.speeds >= 1
    &&& st.last matches Some(last) ==> last < st.seen && st.speeds >= 2 && st.first is Some
        && st.first->0 < last
}

/// The scan over lines holds what the lines give, and its positions are in
/// order.
pub proof fn lemma_transmission_scan(lines: Seq<Seq<char>>)
    ensures
        transmission_scan(lines) == transmission_found(lines),
        scan_in_order(transmission_found(lines)),
    decreases lines.len(),
{
    lemma_count_marked(lines, ratios_marker());
    lemma_first_marked(lines, ratios_marker());
    lemma_last_marked(lines, ratios_marker());
    if lines.len() > 0 {
        let before = lines.drop_last();
        lemma_transmission_scan(before);
        lemma_count_marked(before, ratios_marker());
        lemma_first_marked(before, ratios_marker());
        lemma_last_marked(before, ratios_marker());
        assert(any_marked(lines, retarder_marker()) == (any_marked(before, retarder_marker())
            || contains(lines.last(), retarder_marker()))) by {
            if any_marked(before, retarder_marker()) {
                let i = choose|i: int| marked(before, retarder_marker(), i);
                assert(before[i] == lines[i]);
                assert(marked(lines, retarder_marker(), i));
            }
            if contains(lines.last(), retarder_marker()) {
                assert(marked(lines, retarder_marker(), lines.len() - 1));
            }
            if any_marked(lines, retarder_marker()) {
                let i = choose|i: int| marked(lines, retarder_marker(), i);
                if i < before.len() {
                    assert(before[i] == lines[i]);
                    assert(marked(before, retarder_marker(), i));
                }
            }
        }
    }
}

/// A ratio range holds the separator between its two ratios.
pub proof fn lemma_range_holds_separator(lines: Seq<Seq<char>>, first: int, last: int)
    requires
        ratio_range(lines, first, last) is Some,
    ensures
        contains(ratio_range(lines, first, last)->0, range_separator()),
{
    let a = colon_value(lines[first])->0;
    let b = colon_value(lines[last])->0;
    let range = a + range_separator() + b;
    let at = a.len() as int;
    assert(range.subrange(at, at + range_separator().len()) =~= range_separator());
    assert(occurs_at(range, range_separator(), at));
}

/// Name and first position are captured once, and a retarder once noted
/// stays noted: what the first `k` lines give of them is what all the lines
/// give.
pub proof fn lemma_transmission_first_stays(lines: Seq<Seq<char>>, k: int)
    requires
        0 <= k <= lines.len(),
    ensures
        transmission_found(lines.take(k)).name.len() > 0 ==> transmission_found(lines).name
            == transmission_found(lines.take(k)).name,
        transmission_found(lines.take(k)).first is Some ==> transmission_found(lines).first
            == transmission_found(lines.take(k)).first,
        transmission_found(lines.take(k)).retarder ==> transmission_found(lines).retarder,
{
    let early = lines.take(k);
    if name_among(early).len() > 0 {
        lemma_name_stays(lines, k);
    }
    lemma_first_marked(early, ratios_marker());
    lemma_first_marked(lines, ratios_marker());
    if first_marked(early, ratios_marker()) is Some {
        let i = first_marked(early, ratios_marker())->0;
        assert(marked(early, ratios_marker(), i));
        assert(early[i] == lines[i]);
        assert(marked(lines, ratios_marker(), i));
        let j = first_marked(lines, ratios_marker())->0;
        if j < i {
            assert(early[j] == lines[j]);
            assert(marked(early, ratios_marker(), j));
        }
    }
    if any_marked(early, retarder_marker()) {
        let i = choose|i: int| marked(early, retarder_marker(), i);
        assert(early[i] == lines[i]);
        assert(marked(lines, retarder_marker(), i));
    }
}

/// Lines of which at most one carries the forward-ratio marker define no
/// transmission.
pub proof fn lemma_one_ratio_line_is_too_few(
    lines: Seq<Seq<char>>,
    folder: Seq<char>,
    file: Seq<char>,
)
    requires
        forall|i: int, j: int|
            #![trigger lines[i], lines[j]]
            0 <= i < j < lines.len() ==> !(contains(lines[i], ratios_marker()) && contains(
                lines[j],
                ratios_marker(),
            )),
    ensures
        transmission_record(lines, folder, file) is None,
{
    lemma_first_marked(lines, ratios_marker());
    lemma_last_marked(lines, ratios_marker());
    let first = first_marked(lines, ratios_marker());
    let last = last_marked(lines, ratios_marker());
    if first is Some && last is Some && first->0 < last->0 {
        assert(marked(lines, ratios_marker(), first->0));
        assert(marked(lines, ratios_marker(), last->0));
        assert(contains(lines[first->0], ratios_marker()) && contains(
            lines[last->0],
            ratios_marker(),
        ));
    }
}

/// The record `t` says of `lines` what they hold: its name is the name they
/// give; its speed count is the numeral of the number of lines with the
/// forward-ratio marker, which are at least two; its ratio range is read from
/// the first and the last of those lines; and it has a retarder exactly when
/// some line carries the retarder marker.
pub open spec fn taken_from(t: TransmissionDataView, lines: Seq<Seq<char>>) -> bool {
    &&& t.name == name_among(lines)
    &&& count_marked(lines, ratios_marker()) >= 2
    &&& t.speeds == decimal(count_marked(lines, ratios_marker()))
    &&& t.retarder == any_marked(lines, retarder_marker())
    &&& first_marked(lines, ratios_marker()) is Some
    &&& last_marked(lines, ratios_marker()) is Some
    &&& Some(t.ratio) == ratio_range(
        lines,
        first_marked(lines, ratios_marker())->0,
        last_marked(lines, ratios_marker())->0,
    )
}

/// Every transmission that lines define is valid and says of the lines what
/// they hold.
pub proof fn lemma_record_counts(lines: Seq<Seq<char>>, folder: Seq<char>, file: Seq<char>)
    requires
        transmission_record(lines, folder, file) is Some,
    ensures
        TransmissionData::valid(transmission_record(lines, folder, file)->0),
        taken_from(transmission_record(lines, folder, file)->0, lines),
{
    lemma_count_marked(lines, ratios_marker());
    lemma_first_marked(lines, ratios_marker());
    lemma_last_marked(lines, ratios_marker());
    let first = first_marked(lines, ratios_marker())->0;
    let last = last_marked(lines, ratios_marker())->0;
    assert(marked(lines, ratios_marker(), first) && marked(lines, ratios_marker(), last));
    lemma_range_holds_separator(lines, first, last);
}

impl TransmissionScan {
    /// A scan that has taken no line yet.
    pub fn new() -> (st: Self)
        ensures
            st@ == transmission_start(),
            scan_in_order(st@),
    {
        TransmissionScan {
            seen: 0,
            name: String::new(),
            speeds: 0,
            retarder: false,
            first: None,
            last: None,
        }
    }

    /// Takes one more line into the scan.
    pub fn step(&mut self, line: &String)
        requires
            scan_in_order(old(self)@),
            old(self).seen < usize::MAX,
        ensures
            final(self)@ == transmission_step(old(self)@, line@),
            scan_in_order(final(self)@),
    {
        let index: usize = self.seen;
        self.seen = index + 1;
        let chars = chars_of(line.as_str());
        if self.name.as_str().is_empty() && contains_chars(&chars, &chars_of("name:")) {
            match object_name_chars(&chars) {
                Some(name) => {
                    self.name = string_of(&name);
                },
                None => {},
            }
        }
        if contains_chars(&chars, &chars_of("ratios_forward[")) {
            if self.first.is_none() {
                self.first = Some(index);
            } else {
                self.last = Some(index);
            }
            self.speeds = self.speeds + 1;
        }
        if contains_chars(&chars, &chars_of("retarder:")) {
            self.retarder = true;
        }
        proof {
            let after = transmission_step(old(self)@, line@);
            assert(self@.name =~= after.name);
        }
    }

    /// Ends the scan over `lines` and gives the record it found.
    pub fn finish(self, lines: Vec<String>, folder_name: &String, file_name: &String) -> (r: Option<
        TransmissionData,
    >)
        requires
            scan_in_order(self@),
            self.seen <= lines.len(),
        ensures
            r.deep_view() == transmission_finish(
                self@,
                lines.deep_view(),
                folder_name@,
                file_name@,
            ),
            r matches Some(t) ==> TransmissionData::valid(t@),
    {
        let (first, last) = match (self.first, self.last) {
            (Some(first), Some(last)) => (first, last),
            _ => {
                return None;
            },
        };
        proof {
            if ratio_range(lines.deep_view(), first as int, last as int) is Some {
                lemma_range_holds_separator(lines.deep_view(), first as int, last as int);
            }
        }
        let ratio = match get_transmission_ratio(lines, first, last) {
            Some(ratio) => ratio,
            None => {
                return None;
            },
        };
        if self.name.as_str().is_empty() || self.speeds == 0 {
            return None;
        }
        let mut code = String::from_str("/def/vehicle/truck/");
        code.append(folder_name.as_str());
        code.append("/transmission/");
        code.append(file_name.as_str());
        Some(
            TransmissionData {
                name: self.name,
                speeds: decimal_string(self.speeds),
                retarder: self.retarder,
                ratio,
                code,
            },
        )
    }
}

/// Reads the ratio range from the lines at positions `i_start` and `i_end`.
pub fn get_transmission_ratio(file: Vec<String>, i_start: usize, i_end: usize) -> (r: Option<String>)
    requires
        i_start < file.len(),
        i_end < file.len(),
    ensures
        r.deep_view() == ratio_range(file.deep_view(), i_start as int, i_end as int),
{
    let ratio_1 = match get_normal_value(&file[i_start]) {
        Some(ratio) => ratio,
        None => {
            return None;
        },
    };
    let ratio_2 = match get_normal_value(&file[i_end]) {
        Some(ratio) => ratio,
        None => {
            return None;
        },
    };
    let mut range = ratio_1;
    range.append(" - ");
    range.append(ratio_2.as_str());
    Some(range)
}

/// Builds the transmission record that the given lines define.
pub fn transmission_from_lines(lines: Vec<String>, folder_name: &String, file_name: &String) -> (r:
    Option<TransmissionData>)
    ensures
        r.deep_view() == transmission_record(lines.deep_view(), folder_name@, file_name@),
        r matches Some(t) ==> TransmissionData::valid(t@) && taken_from(t@, lines.deep_view()),
{
    let ghost all = lines.deep_view();
    let mut scan = TransmissionScan::new();
    let mut i: usize = 0;
    assert(lines.deep_view().take(0) =~= Seq::<Seq<char>>::empty());
    while i < lines.len()
        invariant
            i <= lines.len(),
            scan@ == transmission_scan(lines.deep_view().take(i as int)),
            scan_in_order(scan@),
            scan.seen == i,
        decreases lines.len() - i,
    {
        proof {
            let now = lines.deep_view().take(i + 1);
            assert(now.drop_last() =~= lines.deep_view().take(i as int));
            assert(now.last() == lines@[i as int]@);
        }
        scan.step(&lines[i]);
        i += 1;
    }
    proof {
        assert(lines.deep_view().take(lines.len() as int) =~= lines.deep_view());
        lemma_transmission_scan(lines.deep_view());
    }
    let r = scan.finish(lines, folder_name, file_name);
    proof {
        if r is Some {
            lemma_record_counts(all, folder_name@, file_name@);
        }
    }
    r
}

/// Builds the transmission record of a definition file from the file's text;
/// `None` for the text of a file that could not be read.
pub fn read_transmission_file(
    text: &Option<String>,
    folder_name: &String,
    file_name: &String,
) -> (r: Option<TransmissionData>)
    ensures
        r.deep_view() == transmission_of_text(text.deep_view(), folder_name@, file_name@),
        r matches Some(t) ==> TransmissionData::valid(t@) && lines_of_file(text.deep_view())
            is Some && taken_from(t@, lines_of_file(text.deep_view())->0),
{
    match file_split_space(text) {
        Some(lines) => transmission_from_lines(lines, folder_name, file_name),
        None => None,
    }
}

} // verus!
