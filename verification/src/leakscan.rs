//! Search for canaries, raw and encoded, in byte strings.

use vstd::prelude::*;
use vstd::string::*;
use vstd::utf8::*;

use crate::encoding::{base64_standard, hex_encode, json_text, percent_encode};

verus! {

/// A canary match found in a byte sequence.
#[derive(Debug, Clone, PartialEq, Eq)]
pub struct Hit {
    pub canary_index: usize,
    pub encoding: String,
    pub byte_offset: usize,
}

impl View for Hit {
    type V = (int, Seq<char>, int);

    open spec fn view(&self) -> (int, Seq<char>, int) {
        (self.canary_index as int, self.encoding@, self.byte_offset as int)
    }
}

/// The hits of a list, by their views.
pub open spec fn hit_views(hits: Seq<Hit>) -> Seq<(int, Seq<char>, int)> {
    hits.map_values(|h: Hit| h@)
}

/// ASCII upper case letters become lower case; every other byte stays.
pub open spec fn fold_byte(b: u8) -> u8 {
    if 0x41 <= b <= 0x5a {
        (b + 32) as u8
    } else {
        b
    }
}

/// Two bytes are the same, up to ASCII case where `fold` is set.
pub open spec fn same_byte(a: u8, b: u8, fold: bool) -> bool {
    if fold {
        fold_byte(a) == fold_byte(b)
    } else {
        a == b
    }
}

/// `needle` stands in `haystack` at `at`.
pub open spec fn stands_at(haystack: Seq<u8>, needle: Seq<u8>, fold: bool, at: int) -> bool {
    &&& 0 <= at
    &&& at + needle.len() <= haystack.len()
    &&& forall|j: int|
        0 <= j < needle.len() ==> same_byte(haystack[at + j], #[trigger] needle[j], fold)
}

/// The positions below `end` at which `needle` stands, in ascending order.
pub open spec fn positions(haystack: Seq<u8>, needle: Seq<u8>, fold: bool, end: nat) -> Seq<int>
    decreases end,
{
    if end == 0 {
        seq![]
    } else {
        let before = positions(haystack, needle, fold, (end - 1) as nat);
        if stands_at(haystack, needle, fold, end - 1) {
            before.push(end - 1)
        } else {
            before
        }
    }
}

/// The positions at which a needle stands; an empty needle stands nowhere.
pub open spec fn matches_of(haystack: Seq<u8>, needle: Seq<u8>, fold: bool) -> Seq<int> {
    if needle.len() == 0 {
        seq![]
    } else {
        positions(haystack, needle, fold, haystack.len())
    }
}

/// The positions found are those, and only those, where the needle stands.
pub proof fn lemma_positions(haystack: Seq<u8>, needle: Seq<u8>, fold: bool, end: nat, at: int)
    ensures
        positions(haystack, needle, fold, end).contains(at) <==> 0 <= at < end && stands_at(
            haystack,
            needle,
            fold,
            at,
        ),
    decreases end,
{
    if end > 0 {
        let before = positions(haystack, needle, fold, (end - 1) as nat);
        lemma_positions(haystack, needle, fold, (end - 1) as nat, at);
        let all = positions(haystack, needle, fold, end);
        if all.contains(at) {
            let i = choose|i: int| 0 <= i < all.len() && all[i] == at;
            if i < before.len() {
                assert(before[i] == at);
            }
        }
        if before.contains(at) {
            let i = choose|i: int| 0 <= i < before.len() && before[i] == at;
            assert(all[i] == at);
        }
        if at == end - 1 && stands_at(haystack, needle, fold, at) {
            assert(all[before.len() as int] == at);
        }
    }
}

proof fn lemma_positions_past_end(haystack: Seq<u8>, needle: Seq<u8>, fold: bool, end: nat)
    requires
        end + needle.len() > haystack.len(),
        end <= haystack.len(),
    ensures
        positions(haystack, needle, fold, haystack.len()) == positions(haystack, needle, fold, end),
    decreases haystack.len() - end,
{
    if end < haystack.len() {
        lemma_positions_past_end(haystack, needle, fold, end + 1);
    }
}

/// The byte offsets of `list`, as integers.
pub open spec fn offsets(list: Seq<usize>) -> Seq<int> {
    list.map_values(|o: usize| o as int)
}

fn byte_folded(b: u8) -> (r: u8)
    ensures
        r == fold_byte(b),
{
    if 0x41 <= b && b <= 0x5a {
        b + 32
    } else {
        b
    }
}

fn window_matches(haystack: &[u8], needle: &[u8], ignore_ascii_case: bool, at: usize) -> (r: bool)
    requires
        at + needle@.len() <= haystack@.len(),
    ensures
        r == stands_at(haystack@, needle@, ignore_ascii_case, at as int),
{
    let end: usize = haystack.len();
    let mut j: usize = 0;
    while j < needle.len()
        invariant
            j <= needle@.len(),
            at + needle@.len() <= end == haystack@.len(),
            forall|k: int|
                0 <= k < j ==> same_byte(haystack@[at + k], #[trigger] needle@[k], ignore_ascii_case),
        decreases needle@.len() - j,
    {
        let same = if ignore_ascii_case {
            byte_folded(haystack[at + j]) == byte_folded(needle[j])
        } else {
            haystack[at + j] == needle[j]
        };
        if !same {
            assert(!same_byte(haystack@[at + j], needle@[j as int], ignore_ascii_case));
            return false;
        }
        j += 1;
    }
    true
}

/// Finds every position at which `needle` stands in `haystack`.
pub fn find_matches(haystack: &[u8], needle: &[u8], ignore_ascii_case: bool) -> (found: Vec<usize>)
    ensures
        offsets(found@) == matches_of(haystack@, needle@, ignore_ascii_case),
{
    let mut found: Vec<usize> = Vec::new();
    if needle.len() == 0 {
        assert(offsets(found@) =~= matches_of(haystack@, needle@, ignore_ascii_case));
        return found;
    }
    if needle.len() > haystack.len() {
        proof {
            lemma_positions_past_end(haystack@, needle@, ignore_ascii_case, 0);
            assert(offsets(found@) =~= matches_of(haystack@, needle@, ignore_ascii_case));
        }
        return found;
    }
    let last: usize = haystack.len() - needle.len();
    let mut at: usize = 0;
    assert(offsets(found@) =~= positions(haystack@, needle@, ignore_ascii_case, 0));
    while at <= last
        invariant
            0 < needle@.len(),
            at <= last + 1,
            last + needle@.len() == haystack@.len() <= usize::MAX,
            offsets(found@) == positions(haystack@, needle@, ignore_ascii_case, at as nat),
        decreases last + 1 - at,
    {
        let ghost before = found@;
        if window_matches(haystack, needle, ignore_ascii_case, at) {
            found.push(at);
            assert(offsets(found@) =~= offsets(before).push(at as int));
        }
        at += 1;
    }
    proof {
        lemma_positions_past_end(haystack@, needle@, ignore_ascii_case, at as nat);
    }
    found
}

/// The names of the encodings in which a canary is looked for.
pub open spec fn encoding_name(v: int) -> Seq<char> {
    if v == 0 {
        "raw"@
    } else if v == 1 {
        "base64"@
    } else if v == 2 {
        "url"@
    } else if v == 3 {
        "hex"@
    } else {
        "json"@
    }
}

/// The bytes of a canary in an encoding.
pub open spec fn encoded(v: int, canary: Seq<char>) -> Seq<u8> {
    let bytes = encode_utf8(canary);
    if v == 0 {
        bytes
    } else if v == 1 {
        encode_utf8(crate::encoding::base64_chars(bytes, false, true))
    } else if v == 2 {
        crate::encoding::percent(bytes)
    } else if v == 3 {
        crate::encoding::hex(bytes)
    } else {
        encode_utf8(crate::encoding::json_string(canary))
    }
}

/// Percent and hexadecimal forms are looked for without regard to case.
pub open spec fn ignores_case(v: int) -> bool {
    v == 2 || v == 3
}

/// The hits of one canary in one encoding.
pub open spec fn encoding_hits(haystack: Seq<u8>, index: int, canary: Seq<char>, v: int) -> Seq<
    (int, Seq<char>, int),
> {
    matches_of(haystack, encoded(v, canary), ignores_case(v)).map_values(
        |at: int| (index, encoding_name(v), at),
    )
}

/// The hits of one canary in the first `n` encodings.
pub open spec fn canary_hits(haystack: Seq<u8>, index: int, canary: Seq<char>, n: nat) -> Seq<
    (int, Seq<char>, int),
>
    decreases n,
{
    if n == 0 {
        seq![]
    } else {
        canary_hits(haystack, index, canary, (n - 1) as nat) + encoding_hits(
            haystack,
            index,
            canary,
            n - 1,
        )
    }
}

/// All hits, by canary, then by encoding, then by position.
pub open spec fn scan(haystack: Seq<u8>, canaries: Seq<Seq<char>>) -> Seq<(int, Seq<char>, int)>
    decreases canaries.len(),
{
    if canaries.len() == 0 {
        seq![]
    } else {
        scan(haystack, canaries.drop_last()) + canary_hits(
            haystack,
            canaries.len() - 1,
            canaries.last(),
            5,
        )
    }
}

/// All canaries of a list are encodable.
pub open spec fn all_encodable(canaries: Seq<String>) -> bool {
    forall|i: int| 0 <= i < canaries.len() ==> crate::encoding::encodable((#[trigger] canaries[i])@)
}

fn push_hits(
    hits: &mut Vec<Hit>,
    haystack: &[u8],
    needle: &[u8],
    ignore_ascii_case: bool,
    canary_index: usize,
    encoding: &str,
)
    ensures
        hit_views(final(hits)@) == hit_views(old(hits)@) + matches_of(
            haystack@,
            needle@,
            ignore_ascii_case,
        ).map_values(|at: int| (canary_index as int, encoding@, at)),
{
    let found = find_matches(haystack, needle, ignore_ascii_case);
    let ghost before = hit_views(hits@);
    let ghost new = offsets(found@).map_values(|at: int| (canary_index as int, encoding@, at));
    let mut i: usize = 0;
    assert(before + new.take(0) =~= before);
    while i < found.len()
        invariant
            i <= found@.len(),
            new == offsets(found@).map_values(|at: int| (canary_index as int, encoding@, at)),
            hit_views(hits@) == before + new.take(i as int),
        decreases found@.len() - i,
    {
        let ghost earlier = hits@;
        let hit = Hit { canary_index, encoding: encoding.to_owned(), byte_offset: found[i] };
        hits.push(hit);
        proof {
            assert(hit_views(hits@) =~= hit_views(earlier).push(hit@));
            assert(new.take(i + 1) =~= new.take(i as int).push(new[i as int]));
            assert(before + new.take(i + 1) =~= (before + new.take(i as int)).push(new[i as int]));
        }
        i += 1;
    }
    assert(new.take(i as int) =~= new);
}

/// Scans bytes for raw and encoded forms of each canary.
pub fn scan_bytes(haystack: &[u8], canaries: &[String]) -> (hits: Vec<Hit>)
    requires
        all_encodable(canaries@),
    ensures
        hit_views(hits@) == scan(haystack@, crate::text::texts(canaries@)),
{
    let mut hits: Vec<Hit> = Vec::new();
    let ghost views = crate::text::texts(canaries@);
    let mut i: usize = 0;
    assert(hit_views(hits@) =~= scan(haystack@, views.take(0)));
    while i < canaries.len()
        invariant
            i <= canaries@.len(),
            all_encodable(canaries@),
            views == crate::text::texts(canaries@),
            hit_views(hits@) == scan(haystack@, views.take(i as int)),
        decreases canaries@.len() - i,
    {
        let canary = &canaries[i];
        let ghost before = hit_views(hits@);
        proof {
            assert(crate::encoding::encodable(canaries@[i as int]@));
            reveal_with_fuel(canary_hits, 6);
        }
        let bytes = canary.as_str().as_bytes();
        push_hits(&mut hits, haystack, bytes, false, i, "raw");
        let base64 = base64_standard(bytes);
        push_hits(&mut hits, haystack, base64.as_str().as_bytes(), false, i, "base64");
        let percent = percent_encode(bytes);
        push_hits(&mut hits, haystack, percent.as_slice(), true, i, "url");
        let hex = hex_encode(bytes);
        push_hits(&mut hits, haystack, hex.as_slice(), true, i, "hex");
        let json = json_text(canary);
        push_hits(&mut hits, haystack, json.as_str().as_bytes(), false, i, "json");
        proof {
            assert(views.take(i + 1).drop_last() =~= views.take(i as int));
            assert(views.take(i + 1).last() == canary@);
            let new = canary_hits(haystack@, i as int, canary@, 5);
            assert(hit_views(hits@) =~= before + new);
        }
        i += 1;
    }
    assert(views.take(i as int) =~= views);
    hits
}

proof fn lemma_canary_hits(
    haystack: Seq<u8>,
    index: int,
    canary: Seq<char>,
    n: nat,
    hit: (int, Seq<char>, int),
)
    requires
        n <= 5,
    ensures
        canary_hits(haystack, index, canary, n).contains(hit) <==> hit.0 == index && exists|v: int|
            0 <= v < n && #[trigger] is_hit(haystack, canary, v, hit.1, hit.2),
    decreases n,
{
    if n > 0 {
        let v = n - 1;
        let before = canary_hits(haystack, index, canary, (n - 1) as nat);
        let found = matches_of(haystack, encoded(v, canary), ignores_case(v));
        let new = encoding_hits(haystack, index, canary, v);
        let all = canary_hits(haystack, index, canary, n);
        lemma_canary_hits(haystack, index, canary, (n - 1) as nat, hit);
        lemma_positions(haystack, encoded(v, canary), ignores_case(v), haystack.len(), hit.2);
        assert(new.contains(hit) <==> hit.0 == index && is_hit(
            haystack,
            canary,
            v,
            hit.1,
            hit.2,
        )) by {
            if new.contains(hit) {
                let i = choose|i: int| 0 <= i < new.len() && new[i] == hit;
                assert(found[i] == hit.2);
                assert(found.contains(hit.2));
            }
            if hit.0 == index && is_hit(haystack, canary, v, hit.1, hit.2) {
                assert(found.contains(hit.2));
                let i = choose|i: int| 0 <= i < found.len() && found[i] == hit.2;
                assert(new[i] == hit);
            }
        }
        assert(all.contains(hit) <==> before.contains(hit) || new.contains(hit)) by {
            if all.contains(hit) {
                let i = choose|i: int| 0 <= i < all.len() && all[i] == hit;
                if i < before.len() {
                    assert(before[i] == hit);
                } else {
                    assert(new[i - before.len()] == hit);
                }
            }
            if before.contains(hit) {
                let i = choose|i: int| 0 <= i < before.len() && before[i] == hit;
                assert(all[i] == hit);
            }
            if new.contains(hit) {
                let i = choose|i: int| 0 <= i < new.len() && new[i] == hit;
                assert(all[i + before.len()] == hit);
            }
        }
    }
}

/// The encoding `v` of `canary` is not empty, has the name `name`, and stands
/// in `haystack` at `at`.
pub open spec fn is_hit(
    haystack: Seq<u8>,
    canary: Seq<char>,
    v: int,
    name: Seq<char>,
    at: int,
) -> bool {
    &&& encoded(v, canary).len() > 0
    &&& name == encoding_name(v)
    &&& stands_at(haystack, encoded(v, canary), ignores_case(v), at)
}

/// A hit is reported if and only if the canary it names stands at its
/// position in the encoding it names.
pub proof fn law_scan_is_exact(
    haystack: Seq<u8>,
    canaries: Seq<Seq<char>>,
    hit: (int, Seq<char>, int),
)
    ensures
        scan(haystack, canaries).contains(hit) <==> 0 <= hit.0 < canaries.len() && exists|v: int|
            0 <= v < 5 && #[trigger] is_hit(haystack, canaries[hit.0], v, hit.1, hit.2),
    decreases canaries.len(),
{
    if canaries.len() > 0 {
        let rest = canaries.drop_last();
        let last = canaries.len() - 1;
        law_scan_is_exact(haystack, rest, hit);
        lemma_canary_hits(haystack, last, canaries.last(), 5, hit);
        let before = scan(haystack, rest);
        let new = canary_hits(haystack, last, canaries.last(), 5);
        let all = scan(haystack, canaries);
        assert(all.contains(hit) <==> before.contains(hit) || new.contains(hit)) by {
            if all.contains(hit) {
                let i = choose|i: int| 0 <= i < all.len() && all[i] == hit;
                if i < before.len() {
                    assert(before[i] == hit);
                } else {
                    assert(new[i - before.len()] == hit);
                }
            }
            if before.contains(hit) {
                let i = choose|i: int| 0 <= i < before.len() && before[i] == hit;
                assert(all[i] == hit);
            }
            if new.contains(hit) {
                let i = choose|i: int| 0 <= i < new.len() && new[i] == hit;
                assert(all[i + before.len()] == hit);
            }
        }
        if 0 <= hit.0 < last {
            assert(canaries[hit.0] == rest[hit.0]);
        }
    }
}

/// A byte string that holds a non-empty canary as it is has at least one hit.
pub proof fn law_raw_canary_is_found(
    before: Seq<u8>,
    canaries: Seq<Seq<char>>,
    index: int,
    after: Seq<u8>,
)
    requires
        0 <= index < canaries.len(),
        canaries[index].len() > 0,
    ensures
        scan(before + encode_utf8(canaries[index]) + after, canaries).contains(
            (index, "raw"@, before.len() as int),
        ),
{
    let canary = canaries[index];
    let bytes = encode_utf8(canary);
    let haystack = before + bytes + after;
    let hit = (index, "raw"@, before.len() as int);
    encode_utf8_first_scalar(canary);
    assert(bytes.len() > 0) by {
        if bytes.len() == 0 {
            encode_utf8_decode_utf8(canary);
            assert(bytes =~= seq![]);
            assert(decode_utf8(bytes) == canary);
        }
    }
    assert(stands_at(haystack, encoded(0, canary), false, before.len() as int)) by {
        assert forall|j: int| 0 <= j < bytes.len() implies same_byte(
            haystack[before.len() + j],
            #[trigger] bytes[j],
            false,
        ) by {}
    }
    law_scan_is_exact(haystack, canaries, hit);
    assert(is_hit(haystack, canary, 0, hit.1, hit.2));
}

// ---------------------------------------------------------------------------
// Reports
// ---------------------------------------------------------------------------

/// A hit together with the target in which it was found.
#[derive(Debug, Clone, PartialEq, Eq)]
pub struct ReportHit {
    pub path: String,
    pub canary_index: usize,
    pub encoding: String,
    pub byte_offset: usize,
}

impl View for ReportHit {
    type V = (Seq<char>, (int, Seq<char>, int));

    open spec fn view(&self) -> (Seq<char>, (int, Seq<char>, int)) {
        (self.path@, (self.canary_index as int, self.encoding@, self.byte_offset as int))
    }
}

/// The report hits of a list, by their views.
pub open spec fn report_views(hits: Seq<ReportHit>) -> Seq<(Seq<char>, (int, Seq<char>, int))> {
    hits.map_values(|h: ReportHit| h@)
}

/// Scans the contents of one target and appends what is found to the report.
pub fn append_hits(path: &str, bytes: &[u8], canaries: &[String], hits: &mut Vec<ReportHit>)
    requires
        all_encodable(canaries@),
    ensures
        report_views(final(hits)@) == report_views(old(hits)@) + scan(
            bytes@,
            crate::text::texts(canaries@),
        ).map_values(|h: (int, Seq<char>, int)| (path@, h)),
{
    let found = scan_bytes(bytes, canaries);
    let ghost before = report_views(hits@);
    let ghost new = hit_views(found@).map_values(|h: (int, Seq<char>, int)| (path@, h));
    let mut i: usize = 0;
    assert(before + new.take(0) =~= before);
    while i < found.len()
        invariant
            i <= found@.len(),
            new == hit_views(found@).map_values(|h: (int, Seq<char>, int)| (path@, h)),
            report_views(hits@) == before + new.take(i as int),
        decreases found@.len() - i,
    {
        let ghost earlier = hits@;
        let hit = ReportHit {
            path: path.to_owned(),
            canary_index: found[i].canary_index,
            encoding: found[i].encoding.clone(),
            byte_offset: found[i].byte_offset,
        };
        hits.push(hit);
        proof {
            assert(report_views(hits@) =~= report_views(earlier).push(hit@));
            assert(new[i as int] == hit@);
            assert(new.take(i + 1) =~= new.take(i as int).push(new[i as int]));
            assert(before + new.take(i + 1) =~= (before + new.take(i as int)).push(new[i as int]));
        }
        i += 1;
    }
    assert(new.take(i as int) =~= new);
}

/// What is done with a target or a directory entry.
#[derive(Clone, Copy, Debug, PartialEq, Eq)]
pub enum EntryAction {
    /// Walk the directory.
    Walk,
    /// Read and scan the file.
    Scan,
    /// Neither a directory nor a regular file: pass over it.
    Skip,
}

/// Directories are walked, regular files are scanned, and the rest (symbolic
/// links and devices) is passed over.
pub fn entry_action(is_dir: bool, is_file: bool) -> (r: EntryAction)
    ensures
        r == (if is_dir {
            EntryAction::Walk
        } else if is_file {
            EntryAction::Scan
        } else {
            EntryAction::Skip
        }),
{
    if is_dir {
        EntryAction::Walk
    } else if is_file {
        EntryAction::Scan
    } else {
        EntryAction::Skip
    }
}

/// What a failed read means.
#[derive(Debug, PartialEq, Eq)]
pub enum ReadFailure {
    /// A target named by the user could not be read: the scan fails.
    Fatal(String),
    /// Something below a target could not be read: the scan goes on.
    Warning(String),
}

/// The two kinds of things that are read.
#[derive(Clone, Copy, Debug, PartialEq, Eq)]
pub enum ReadKind {
    Directory,
    File,
}

/// Failures on a target end the scan, failures below a target are warnings.
pub fn read_failure(kind: ReadKind, path: &str, error: &str, is_target: bool) -> (r: ReadFailure)
    ensures
        match r {
            ReadFailure::Fatal(m) => is_target && m@ == (match kind {
                ReadKind::Directory => "failed to read directory "@,
                ReadKind::File => "failed to read target "@,
            }) + path@ + ": "@ + error@,
            ReadFailure::Warning(m) => !is_target && m@ == (match kind {
                ReadKind::Directory => "warning: failed to read directory "@,
                ReadKind::File => "warning: failed to read "@,
            }) + path@ + ": "@ + error@,
        },
{
    let prefix = match (kind, is_target) {
        (ReadKind::Directory, true) => "failed to read directory ",
        (ReadKind::File, true) => "failed to read target ",
        (ReadKind::Directory, false) => "warning: failed to read directory ",
        (ReadKind::File, false) => "warning: failed to read ",
    };
    let mut message = crate::text::join3(prefix, path, ": ");
    message.append(error);
    if is_target {
        ReadFailure::Fatal(message)
    } else {
        ReadFailure::Warning(message)
    }
}

/// Two bytes are the same, or the two cases of one letter.
pub open spec fn is_same_letter(a: u8, b: u8) -> bool {
    a == b || (0x41 <= a <= 0x5a && b == a + 32) || (0x41 <= b <= 0x5a && a == b + 32)
}

/// A canary is reported under its number, the name of the form and the
/// position, exactly where it stands: as it is, in padded base64, in percent
/// form or in hexadecimal form in either case, or as a JSON string.
pub proof fn law_every_form_is_reported(
    haystack: &[u8],
    canaries: &[String],
    hits: Vec<Hit>,
    i: int,
    at: int,
    form: Seq<u8>,
    name: Seq<char>,
    fold: bool,
)
    requires
        call_ensures(scan_bytes, (haystack, canaries), hits),
        0 <= i < canaries@.len(),
        ({
            let bytes = encode_utf8(canaries@[i]@);
            ||| name == "raw"@ && form == bytes && !fold
            ||| name == "base64"@ && form == encode_utf8(
                crate::encoding::base64_chars(bytes, false, true),
            ) && !fold
            ||| name == "url"@ && form == crate::encoding::percent(bytes) && fold
            ||| name == "hex"@ && form == crate::encoding::hex(bytes) && fold
            ||| name == "json"@ && form == encode_utf8(
                crate::encoding::json_string(canaries@[i]@),
            ) && !fold
        }),
    ensures
        (exists|k: int|
            0 <= k < hits@.len() && (#[trigger] hits@[k]).canary_index == i && hits@[k].encoding@
                == name && hits@[k].byte_offset == at) <==> {
            &&& form.len() > 0
            &&& 0 <= at
            &&& at + form.len() <= haystack@.len()
            &&& forall|j: int|
                #![trigger form[j]]
                0 <= j < form.len() ==> haystack@[at + j] == form[j] || (fold && is_same_letter(
                    haystack@[at + j],
                    form[j],
                ))
        },
{
    let views = crate::text::texts(canaries@);
    let all = scan(haystack@, views);
    let hit = (i, name, at);
    let canary = canaries@[i]@;
    assert(views[i] == canary);
    law_scan_is_exact(haystack@, views, hit);
    lemma_encoding_names();
    let v: int = if name == "raw"@ {
        0
    } else if name == "base64"@ {
        1
    } else if name == "url"@ {
        2
    } else if name == "hex"@ {
        3
    } else {
        4
    };
    assert(encoded(v, canary) == form);
    assert(ignores_case(v) == fold);
    assert(encoding_name(v) == name);
    assert(all.contains(hit) <==> is_hit(haystack@, canary, v, name, at)) by {
        if all.contains(hit) {
            let w = choose|w: int|
                0 <= w < 5 && #[trigger] is_hit(haystack@, views[hit.0], w, hit.1, hit.2);
            assert(encoding_name(w) == name);
            assert(w == v);
        }
        if is_hit(haystack@, canary, v, name, at) {
            assert(is_hit(haystack@, views[hit.0], v, hit.1, hit.2));
        }
    }
    assert(hit_views(hits@).len() == hits@.len());
    if all.contains(hit) {
        let k = choose|k: int| 0 <= k < all.len() && all[k] == hit;
        assert(hits@[k]@ == hit);
        assert forall|j: int|
            #![trigger form[j]]
            0 <= j < form.len() implies haystack@[at + j] == form[j] || (fold && is_same_letter(
            haystack@[at + j],
            form[j],
        )) by {
            assert(same_byte(haystack@[at + j], form[j], fold));
        }
    }
    if exists|k: int|
        0 <= k < hits@.len() && (#[trigger] hits@[k]).canary_index == i && hits@[k].encoding@
            == name && hits@[k].byte_offset == at {
        let k = choose|k: int|
            0 <= k < hits@.len() && (#[trigger] hits@[k]).canary_index == i && hits@[k].encoding@
                == name && hits@[k].byte_offset == at;
        assert(all[k] == hits@[k]@);
    }
    if form.len() > 0 && 0 <= at && at + form.len() <= haystack@.len() && (forall|j: int|
        #![trigger form[j]]
        0 <= j < form.len() ==> haystack@[at + j] == form[j] || (fold && is_same_letter(
            haystack@[at + j],
            form[j],
        ))) {
        assert forall|j: int| 0 <= j < form.len() implies same_byte(
            haystack@[at + j],
            #[trigger] form[j],
            fold,
        ) by {}
        assert(stands_at(haystack@, form, fold, at));
    }
}

proof fn lemma_encoding_names()
    ensures
        "raw"@ != "base64"@,
        "raw"@ != "url"@,
        "raw"@ != "hex"@,
        "raw"@ != "json"@,
        "base64"@ != "url"@,
        "base64"@ != "hex"@,
        "base64"@ != "json"@,
        "url"@ != "hex"@,
        "url"@ != "json"@,
        "hex"@ != "json"@,
{
    reveal_strlit("raw");
    reveal_strlit("base64");
    reveal_strlit("url");
    reveal_strlit("hex");
    reveal_strlit("json");
    assert("raw"@[0] == 'r' && "url"@[0] == 'u' && "hex"@[0] == 'h');
    assert("base64"@.len() == 6 && "json"@.len() == 4 && "raw"@.len() == 3 && "url"@.len() == 3
        && "hex"@.len() == 3);
}

/// What a scan of a target finds is reported under the path of the target,
/// behind what was reported before.
pub proof fn law_reports_name_their_target(
    path: &str,
    bytes: &[u8],
    canaries: &[String],
    report: &mut Vec<ReportHit>,
    done: (),
    hits: Vec<Hit>,
    k: int,
)
    requires
        call_ensures(append_hits, (path, bytes, canaries, report), done),
        call_ensures(scan_bytes, (bytes, canaries), hits),
        0 <= k < hits@.len(),
    ensures
        final(report)@.len() == old(report)@.len() + hits@.len(),
        ({
            let found = final(report)@[old(report)@.len() + k];
            &&& found.path@ == path@
            &&& found.canary_index == hits@[k].canary_index
            &&& found.encoding@ == hits@[k].encoding@
            &&& found.byte_offset == hits@[k].byte_offset
        }),
{
    let n = old(report)@.len();
    let after = report_views(final(report)@);
    assert(after.len() == final(report)@.len());
    assert(report_views(old(report)@).len() == n);
    assert(hit_views(hits@).len() == hits@.len());
    assert(hit_views(hits@)[k] == hits@[k]@);
    assert(after[n + k] == final(report)@[n + k]@);
}

/// A byte string that holds a canary in one of its forms has a hit.
pub proof fn lemma_form_is_found(
    before: Seq<u8>,
    canaries: Seq<Seq<char>>,
    i: int,
    form: Seq<u8>,
    after: Seq<u8>,
)
    requires
        0 <= i < canaries.len(),
        canaries[i].len() > 0,
        ({
            let bytes = encode_utf8(canaries[i]);
            ||| form == bytes
            ||| form == encode_utf8(crate::encoding::base64_chars(bytes, false, true))
            ||| form == crate::encoding::percent(bytes)
            ||| form == crate::encoding::hex(bytes)
            ||| form == encode_utf8(crate::encoding::json_string(canaries[i]))
        }),
    ensures
        scan(before + form + after, canaries).len() > 0,
{
    let canary = canaries[i];
    let bytes = encode_utf8(canary);
    let haystack = before + form + after;
    let at = before.len() as int;
    lemma_not_empty(canary);
    let v: int = if form == bytes {
        0
    } else if form == encode_utf8(crate::encoding::base64_chars(bytes, false, true)) {
        1
    } else if form == crate::encoding::percent(bytes) {
        2
    } else if form == crate::encoding::hex(bytes) {
        3
    } else {
        4
    };
    assert(encoded(v, canary) == form);
    lemma_not_empty(crate::encoding::base64_chars(bytes, false, true));
    lemma_not_empty(crate::encoding::json_string(canary));
    assert(form.len() > 0);
    assert forall|j: int| 0 <= j < form.len() implies same_byte(
        haystack[at + j],
        #[trigger] form[j],
        ignores_case(v),
    ) by {
        assert(haystack[at + j] == form[j]);
    }
    let hit = (i, encoding_name(v), at);
    law_scan_is_exact(haystack, canaries, hit);
    assert(is_hit(haystack, canary, v, hit.1, hit.2));
}

proof fn lemma_not_empty(text: Seq<char>)
    requires
        text.len() > 0,
    ensures
        encode_utf8(text).len() > 0,
{
    encode_utf8_decode_utf8(text);
    if encode_utf8(text).len() == 0 {
        assert(encode_utf8(text) =~= seq![]);
        assert(decode_utf8(encode_utf8(text)) == text);
    }
}

/// A value is looked for at every position: each place where it stands is
/// reported, and no other.
pub proof fn law_every_place_is_found(
    haystack: &[u8],
    needle: &[u8],
    found: Vec<usize>,
    at: int,
)
    requires
        call_ensures(find_matches, (haystack, needle, false), found),
        needle@.len() > 0,
    ensures
        (0 <= at && at + needle@.len() <= haystack@.len() && haystack@.subrange(
            at,
            at + needle@.len(),
        ) == needle@) <==> offsets(found@).contains(at),
{
    lemma_positions(haystack@, needle@, false, haystack@.len(), at);
    if 0 <= at && at + needle@.len() <= haystack@.len() {
        let there = haystack@.subrange(at, at + needle@.len());
        if there == needle@ {
            assert forall|j: int| 0 <= j < needle@.len() implies same_byte(
                haystack@[at + j],
                #[trigger] needle@[j],
                false,
            ) by {
                assert(there[j] == haystack@[at + j]);
            }
            assert(stands_at(haystack@, needle@, false, at));
        }
        if stands_at(haystack@, needle@, false, at) {
            assert(there =~= needle@) by {
                assert forall|j: int| 0 <= j < needle@.len() implies there[j] == needle@[j] by {
                    assert(same_byte(haystack@[at + j], needle@[j], false));
                }
            }
        }
    }
}

/// Directories are walked, files are read, and anything else is left alone.
pub proof fn law_directories_are_walked(
    is_dir: bool,
    is_file: bool,
    action: EntryAction,
    kind: ReadKind,
    path: &str,
    error: &str,
    of_target: ReadFailure,
    of_other: ReadFailure,
)
    requires
        call_ensures(entry_action, (is_dir, is_file), action),
        call_ensures(read_failure, (kind, path, error, true), of_target),
        call_ensures(read_failure, (kind, path, error, false), of_other),
    ensures
        action is Walk <==> is_dir,
        action is Scan <==> !is_dir && is_file,
        of_target is Fatal,
        of_other is Warning,
{
}

} // verus!
