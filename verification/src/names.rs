//! Names of files and folders on disk.
use crate::error::{failure, DownloadError, ErrorView};
use crate::link::optional_str;
use crate::text::{
    ascii_lower, chars_of, decimal, decimal_reads_back, is_whitespace, push_decimal, same_text, split,
    string_from, trim, trim_text, trimmed_is_inner_stretch, trimming_leaves_nothing_of_the_class,
    trimming_takes_the_edges, CharClass,
};
use vstd::prelude::*;
use vstd::utf8::encode_utf8;

verus! {

/// A character that no file name may hold on some system: a separator, a character with a meaning
/// to Windows, or a control character.
pub open spec fn is_illegal(c: char) -> bool {
    let code = c as u32;
    ||| c == '/' || c == '?' || c == '<' || c == '>' || c == '\\' || c == ':' || c == '*'
    ||| c == '|' || c == '"'
    ||| code <= 0x1f
    ||| 0x80 <= code <= 0x9f
}

/// Text without the characters that no file name may hold.
pub open spec fn without_illegal(value: Seq<char>) -> Seq<char> {
    value.filter(|c: char| !is_illegal(c))
}

/// Text made of dots alone.
pub open spec fn is_only_dots(value: Seq<char>) -> bool {
    value.len() > 0 && forall|i: int| 0 <= i < value.len() ==> value[i] == '.'
}

/// Whether Windows keeps a name for a device: one of a few names, in letters of either case, alone
/// or with an extension.
pub open spec fn is_device_name(name: Seq<char>) -> bool {
    let base = split(name, CharClass::Only('.'))[0].map_values(|c: char| ascii_lower(c));
    ||| base == "con"@ || base == "prn"@ || base == "aux"@ || base == "nul"@
    ||| base.len() == 4 && (base.take(3) == "com"@ || base.take(3) == "lpt"@) && '0' <= base[3]
        && base[3] <= '9'
}

/// A name without the dots and spaces at its end.
pub open spec fn without_trailing(name: Seq<char>) -> Seq<char>
    decreases name.len(),
{
    if name.len() > 0 && (name.last() == '.' || name.last() == ' ') {
        without_trailing(name.drop_last())
    } else {
        name
    }
}

/// As much of the start of a name as fits into 255 bytes.
pub open spec fn cut_to_size(name: Seq<char>) -> Seq<char>
    decreases name.len(),
{
    if name.len() == 0 || encode_utf8(name).len() <= 255 {
        name
    } else {
        cut_to_size(name.drop_last())
    }
}

/// Text made a file name of, for Windows or for other systems: without illegal characters, empty
/// if only dots are left, and of at most 255 bytes. On Windows a device name is emptied too, and
/// dots and spaces at the end go.
pub open spec fn sanitized(value: Seq<char>, windows: bool) -> Seq<char> {
    let legal = without_illegal(value);
    let named = if is_only_dots(legal) || (windows && is_device_name(legal)) {
        Seq::empty()
    } else {
        legal
    };
    cut_to_size(
        if windows {
            without_trailing(named)
        } else {
            named
        },
    )
}

/// Calls `sanitize_filename::sanitize_with_options` with the options that `sanitize` uses on a
/// system that is, or is not, Windows. It takes out illegal characters, then the whole of a name
/// that is reserved, then, for Windows, the dots and spaces at the end, and cuts what is left to
/// 255 bytes between two characters.
#[verifier::external_body]
fn sanitize_name(value: &str, windows: bool) -> (name: String)
    ensures
        name@ == sanitized(value@, windows),
{
    sanitize_filename::sanitize_with_options(
        value,
        sanitize_filename::Options { windows, ..sanitize_filename::Options::default() },
    )
}

/// The name that stands for `name` once it is sanitized.
pub open spec fn usable_name(name: Seq<char>) -> Seq<char> {
    let inner = trim(name);
    if inner.len() == 0 || inner == "."@ || inner == ".."@ {
        "download"@
    } else {
        inner
    }
}

/// The name on disk of what is called `value`.
pub open spec fn component(value: Seq<char>, windows: bool) -> Seq<char> {
    usable_name(sanitized(value, windows))
}

/// Whether a name names one entry of a folder: it is not empty, not a dot or two, and holds no
/// separator and no other illegal character.
pub open spec fn is_component(name: Seq<char>) -> bool {
    &&& name.len() > 0
    &&& name != "."@
    &&& name != ".."@
    &&& forall|i: int| 0 <= i < name.len() ==> !is_illegal(#[trigger] name[i])
}

/// Whether a name can stay as it is: an entry of a folder with no white space around it, not made
/// of dots alone, of at most 255 bytes and, on Windows, with no dot at its end and no device's name.
pub open spec fn is_plain_name(name: Seq<char>, windows: bool) -> bool {
    &&& is_component(name)
    &&& trim(name) == name
    &&& !is_only_dots(name)
    &&& encode_utf8(name).len() <= 255
    &&& windows ==> !is_device_name(name) && name.last() != '.' && name.last() != ' '
}

/// Whether no character is illegal.
pub open spec fn is_legal(name: Seq<char>) -> bool {
    forall|i: int| 0 <= i < name.len() ==> !is_illegal(#[trigger] name[i])
}

proof fn lemma_without_illegal(value: Seq<char>)
    ensures
        is_legal(without_illegal(value)),
    decreases value.len(),
{
    reveal(Seq::filter);
    if value.len() > 0 {
        lemma_without_illegal(value.drop_last());
    }
}

proof fn lemma_without_trailing(name: Seq<char>)
    requires
        is_legal(name),
    ensures
        is_legal(without_trailing(name)),
    decreases name.len(),
{
    if name.len() > 0 && (name.last() == '.' || name.last() == ' ') {
        lemma_without_trailing(name.drop_last());
    }
}

proof fn lemma_cut_to_size(name: Seq<char>)
    requires
        is_legal(name),
    ensures
        is_legal(cut_to_size(name)),
        encode_utf8(cut_to_size(name)).len() <= 255,
    decreases name.len(),
{
    if name.len() == 0 {
        assert(encode_utf8(name).len() == 0);
    } else if encode_utf8(name).len() > 255 {
        lemma_cut_to_size(name.drop_last());
    }
}

/// What the sanitizer makes of any text holds no illegal character and fits into 255 bytes.
pub proof fn sanitized_names_are_legal(value: Seq<char>, windows: bool)
    ensures
        is_legal(sanitized(value, windows)),
        encode_utf8(sanitized(value, windows)).len() <= 255,
{
    let legal = without_illegal(value);
    lemma_without_illegal(value);
    lemma_without_trailing(legal);
    lemma_cut_to_size(legal);
    lemma_cut_to_size(without_trailing(legal));
    lemma_cut_to_size(Seq::empty());
}

proof fn lemma_nothing_illegal(name: Seq<char>)
    requires
        forall|i: int| 0 <= i < name.len() ==> !is_illegal(#[trigger] name[i]),
    ensures
        without_illegal(name) == name,
    decreases name.len(),
{
    reveal(Seq::filter);
    if name.len() > 0 {
        lemma_nothing_illegal(name.drop_last());
        assert(name.drop_last().push(name.last()) == name);
    }
}

/// The name that stands for `name`, which holds no illegal character, once it is sanitized.
pub fn usable(name: &str) -> (usable: String)
    requires
        forall|i: int| 0 <= i < name@.len() ==> !is_illegal(#[trigger] name@[i]),
    ensures
        usable@ == usable_name(name@),
        is_component(usable@),
{
    let inner = trim_text(name);
    proof {
        trimmed_is_inner_stretch(name@, CharClass::Whitespace);
        reveal_strlit("download");
        reveal_strlit(".");
        reveal_strlit("..");
        assert("download"@.len() > "."@.len() && "download"@.len() > ".."@.len());
    }
    if inner.as_str().is_empty() || same_text(&inner, ".") || same_text(&inner, "..") {
        "download".to_string()
    } else {
        inner
    }
}

/// The name on disk of what is called `value`. A name that can stay as it is does.
pub fn sanitize_component(value: &str, windows: bool) -> (name: String)
    ensures
        name@ == component(value@, windows),
        is_component(name@),
        is_plain_name(value@, windows) ==> name@ == value@,
{
    let name = sanitize_name(value, windows);
    proof {
        sanitized_names_are_legal(value@, windows);
        if is_plain_name(value@, windows) {
            lemma_nothing_illegal(value@);
        }
    }
    usable(&name)
}

/// The position of the last dot, if there is one.
pub open spec fn last_dot(name: Seq<char>) -> Option<int>
    decreases name.len(),
{
    if name.len() == 0 {
        None
    } else if name.last() == '.' {
        Some(name.len() - 1)
    } else {
        last_dot(name.drop_last())
    }
}

/// A name without its extension. A name that starts with its only dot has none.
pub open spec fn stem(name: Seq<char>) -> Seq<char> {
    match last_dot(name) {
        Some(at) if at > 0 => name.take(at),
        _ => name,
    }
}

/// A name's extension with the dot in front of it, or nothing where it has none or an empty one.
pub open spec fn suffix(name: Seq<char>) -> Seq<char> {
    match last_dot(name) {
        Some(at) if 0 < at < name.len() - 1 => name.skip(at),
        _ => Seq::empty(),
    }
}

/// The name that is tried after `index` others: the name itself, then the name with a number in
/// brackets before its extension.
pub open spec fn candidate(name: Seq<char>, index: nat) -> Seq<char> {
    if index == 0 {
        name
    } else {
        stem(name) + " ("@ + decimal(index) + ")"@ + suffix(name)
    }
}

proof fn lemma_last_dot(name: Seq<char>)
    ensures
        last_dot(name) matches Some(at) ==> 0 <= at < name.len() && name[at] == '.',
    decreases name.len(),
{
    if name.len() > 0 && name.last() != '.' {
        lemma_last_dot(name.drop_last());
    }
}

/// The position of the last dot, if there is one.
fn find_last_dot(chars: &Vec<char>) -> (found: Option<usize>)
    ensures
        match found {
            Some(at) => last_dot(chars@) == Some(at as int) && at < chars@.len(),
            None => last_dot(chars@) is None,
        },
{
    let mut i: usize = chars.len();
    assert(chars@.take(i as int) == chars@);
    while i > 0
        invariant
            i <= chars@.len(),
            last_dot(chars@.take(i as int)) == last_dot(chars@),
        decreases i,
    {
        assert(chars@.take(i as int).last() == chars@[i - 1]);
        if chars[i - 1] == '.' {
            return Some(i - 1);
        }
        assert(chars@.take(i as int).drop_last() == chars@.take(i - 1));
        i = i - 1;
    }
    None
}

/// The name that is tried after `index` others.
pub fn candidate_name(name: &str, index: u64) -> (tried: String)
    ensures
        tried@ == candidate(name@, index as nat),
{
    if index == 0 {
        return name.to_string();
    }
    let chars = chars_of(name);
    let total: usize = chars.len();
    let mut stem_end: usize = total;
    let mut suffix_start: usize = total;
    if let Some(at) = find_last_dot(&chars) {
        if at > 0 {
            stem_end = at;
            if at < total - 1 {
                suffix_start = at;
            }
        }
    }
    let mut tried = string_from(&chars, 0, stem_end);
    assert(tried@ == stem(name@));
    tried.append(" (");
    push_decimal(&mut tried, index as u128);
    tried.append(")");
    let rest = string_from(&chars, suffix_start, total);
    assert(rest@ == suffix(name@));
    tried.append(&rest);
    tried
}

/// No two of the names that are tried are the same.
pub proof fn candidates_are_distinct(name: Seq<char>, i: nat, j: nat)
    requires
        candidate(name, i) == candidate(name, j),
    ensures
        i == j,
{
    lemma_last_dot(name);
    reveal_strlit(" (");
    reveal_strlit(")");
    decimal_reads_back(i);
    decimal_reads_back(j);
    let head = stem(name) + " ("@;
    let tail = ")"@ + suffix(name);
    assert(head.len() + tail.len() > name.len());
    if i > 0 && j > 0 {
        let left = candidate(name, i);
        let right = candidate(name, j);
        assert(left == head + decimal(i) + tail);
        assert(right == head + decimal(j) + tail);
        assert(decimal(i).len() == decimal(j).len());
        assert(left.subrange(head.len() as int, (head.len() + decimal(i).len()) as int) == decimal(i));
        assert(right.subrange(head.len() as int, (head.len() + decimal(j).len()) as int) == decimal(j));
    }
}

/// The number of names that are tried.
pub const NAMES_TRIED: u64 = 10_000;

/// The first name, from `index` on, that is not taken.
pub open spec fn free_index(
    name: Seq<char>,
    taken: spec_fn(Seq<char>) -> bool,
    index: nat,
) -> Option<nat>
    decreases NAMES_TRIED - index,
{
    if index >= NAMES_TRIED {
        None
    } else if !taken(candidate(name, index)) {
        Some(index)
    } else {
        free_index(name, taken, index + 1)
    }
}

/// The search takes the first name that is free, and fails only if all names are taken.
pub proof fn search_takes_first_free_name(
    name: Seq<char>,
    taken: spec_fn(Seq<char>) -> bool,
    index: nat,
)
    requires
        index <= NAMES_TRIED,
    ensures
        match free_index(name, taken, index) {
            Some(found) => index <= found < NAMES_TRIED && !taken(candidate(name, found))
                && forall|i: nat|
                index <= i < found ==> taken(#[trigger] candidate(name, i)),
            None => forall|i: nat|
                index <= i < NAMES_TRIED ==> taken(#[trigger] candidate(name, i)),
        },
    decreases NAMES_TRIED - index,
{
    if index < NAMES_TRIED {
        search_takes_first_free_name(name, taken, index + 1);
    }
}

/// The search for a name to save a file under.
pub struct OutputSearch {
    pub name: String,
    pub overwrite: bool,
    /// The number of names that were found to be taken.
    pub index: u64,
}

impl OutputSearch {
    /// The search has not run out of names.
    pub open spec fn wf(self) -> bool {
        self.index < NAMES_TRIED
    }

    /// The search for a name to save a file under that is called `file_name`.
    pub fn new(file_name: &str, overwrite: bool, windows: bool) -> (search: OutputSearch)
        ensures
            search.wf(),
            search.name@ == component(file_name@, windows),
            is_component(search.name@),
            search.overwrite == overwrite,
            search.index == 0,
    {
        OutputSearch { name: sanitize_component(file_name, windows), overwrite, index: 0 }
    }

    /// The name that is tried now.
    pub fn current(&self) -> (name: String)
        ensures
            name@ == candidate(self.name@, self.index as nat),
    {
        candidate_name(&self.name, self.index)
    }

    /// Whether the name that is tried now is used whether or not it is taken.
    pub fn is_settled(&self) -> (settled: bool)
        ensures
            settled == (self.overwrite && self.index == 0),
    {
        self.overwrite && self.index == 0
    }

    /// Goes on after it was found out whether the name that is tried now is taken. Returns whether
    /// that name is used; if it is not, the next name is to be tried.
    pub fn answer(&mut self, exists: bool) -> (used: Result<bool, DownloadError>)
        requires
            old(self).wf(),
            !(old(self).overwrite && old(self).index == 0),
        ensures
            final(self).name == old(self).name,
            final(self).overwrite == old(self).overwrite,
            forall|taken: spec_fn(Seq<char>) -> bool|
                taken(candidate(old(self).name@, old(self).index as nat)) == exists ==> {
                    let found = #[trigger] free_index(
                        old(self).name@,
                        taken,
                        old(self).index as nat,
                    );
                    match used {
                        Ok(true) => found == Some(old(self).index as nat),
                        Ok(false) => found == free_index(
                            old(self).name@,
                            taken,
                            final(self).index as nat,
                        ) && final(self).index == old(self).index + 1,
                        Err(error) => found is None,
                    }
                },
            match used {
                Ok(true) => !exists && final(self).index == old(self).index,
                Ok(false) => exists && old(self).index + 1 < NAMES_TRIED && final(self).index
                    == old(self).index + 1 && final(self).wf(),
                Err(error) => exists && old(self).index + 1 == NAMES_TRIED && error@
                    == ErrorView::Message("could not allocate a unique output path"@),
            },
    {
        reveal_with_fuel(free_index, 2);
        if !exists {
            return Ok(true);
        }
        if self.index + 1 >= NAMES_TRIED {
            return Err(failure("could not allocate a unique output path"));
        }
        self.index = self.index + 1;
        Ok(false)
    }
}

/// A file's name, or `download` where its path has none.
pub open spec fn name_or_download(name: Option<Seq<char>>) -> Seq<char> {
    match name {
        Some(found) => found,
        None => "download"@,
    }
}

/// The name under which a file is kept until it is complete.
pub fn part_name_for(file_name: Option<&str>) -> (name: String)
    ensures
        name@ == name_or_download(optional_str(file_name)) + ".megadown.part"@,
{
    let mut name = match file_name {
        Some(found) => found.to_string(),
        None => "download".to_string(),
    };
    name.append(".megadown.part");
    name
}

/// The name of the file that says which chunks of an incomplete file are there.
pub fn manifest_name_for(file_name: Option<&str>) -> (name: String)
    ensures
        name@ == name_or_download(optional_str(file_name)) + ".megadown.json"@,
{
    let mut name = match file_name {
        Some(found) => found.to_string(),
        None => "download".to_string(),
    };
    name.append(".megadown.json");
    name
}

/// A file, its incomplete form and its manifest never have the same name.
pub proof fn artifact_names_are_distinct(name: Seq<char>)
    ensures
        name + ".megadown.part"@ != name,
        name + ".megadown.json"@ != name,
        name + ".megadown.part"@ != name + ".megadown.json"@,
{
    reveal_strlit(".megadown.part");
    reveal_strlit(".megadown.json");
    let part = name + ".megadown.part"@;
    let manifest = name + ".megadown.json"@;
    assert(part[name.len() as int + 10] == 'p');
    assert(manifest[name.len() as int + 10] == 'j');
}

proof fn lemma_dot_before(base: Seq<char>, extension: Seq<char>)
    requires
        forall|i: int| 0 <= i < extension.len() ==> #[trigger] extension[i] != '.',
    ensures
        last_dot(base.push('.') + extension) == Some(base.len() as int),
        last_dot(extension) is None,
    decreases extension.len(),
{
    let name = base.push('.') + extension;
    if extension.len() == 0 {
        assert(name.last() == '.');
    } else {
        let shorter = extension.drop_last();
        assert forall|i: int| 0 <= i < shorter.len() implies #[trigger] shorter[i] != '.' by {
            assert(shorter[i] == extension[i]);
        }
        assert(extension[extension.len() - 1] != '.');
        lemma_dot_before(base, shorter);
        assert(name.drop_last() =~= base.push('.') + shorter);
    }
}

/// A name that is taken is tried again with a number in brackets, which stands before the
/// extension. Text without a dot has no extension, and neither has a name that starts with its
/// only dot. An empty extension is left out with its dot.
pub proof fn numbers_stand_before_the_extension(
    base: Seq<char>,
    extension: Seq<char>,
    index: nat,
)
    requires
        index > 0,
        forall|i: int| 0 <= i < extension.len() ==> #[trigger] extension[i] != '.',
    ensures
        base.len() > 0 && extension.len() > 0 ==> candidate(base.push('.') + extension, index)
            == base + " ("@ + decimal(index) + ")"@ + seq!['.'] + extension,
        base.len() > 0 && extension.len() == 0 ==> candidate(base.push('.'), index) == base + " ("@
            + decimal(index) + ")"@,
        base.len() == 0 ==> candidate(seq!['.'] + extension, index) == seq!['.'] + extension + " ("@
            + decimal(index) + ")"@,
        candidate(extension, index) == extension + " ("@ + decimal(index) + ")"@,
        candidate(extension, 0) == extension,
{
    lemma_dot_before(base, extension);
    let name = base.push('.') + extension;
    assert(candidate(extension, index) =~= extension + " ("@ + decimal(index) + ")"@);
    if base.len() == 0 {
        assert(name =~= seq!['.'] + extension);
        assert(candidate(name, index) =~= name + " ("@ + decimal(index) + ")"@);
    } else {
        assert(name.take(base.len() as int) =~= base);
        if extension.len() > 0 {
            assert(name.skip(base.len() as int) =~= seq!['.'] + extension);
            assert(candidate(name, index) =~= base + " ("@ + decimal(index) + ")"@ + seq!['.']
                + extension);
        } else {
            assert(name =~= base.push('.'));
            assert(candidate(name, index) =~= base + " ("@ + decimal(index) + ")"@);
        }
    }
}

/// A name is used without the white space around it. Where nothing is left, or only what names a
/// folder and the one above it, the name is `download`.
pub proof fn blank_names_are_replaced(before: Seq<char>, name: Seq<char>, behind: Seq<char>)
    requires
        forall|i: int| 0 <= i < before.len() ==> is_whitespace(#[trigger] before[i]),
        forall|i: int| 0 <= i < behind.len() ==> is_whitespace(#[trigger] behind[i]),
        name.len() > 0,
        !is_whitespace(name.first()),
        !is_whitespace(name.last()),
    ensures
        name != "."@ && name != ".."@ ==> usable_name(before + name + behind) == name,
        name == "."@ || name == ".."@ ==> usable_name(before + name + behind) == "download"@,
        usable_name(before) == "download"@,
{
    let class = CharClass::Whitespace;
    assert forall|i: int| 0 <= i < before.len() implies class.has(#[trigger] before[i]) by {
        assert(is_whitespace(before[i]));
    }
    assert forall|i: int| 0 <= i < behind.len() implies class.has(#[trigger] behind[i]) by {
        assert(is_whitespace(behind[i]));
    }
    trimming_takes_the_edges(before, name, behind, class);
    trimming_leaves_nothing_of_the_class(before, class);
}

/// A free name among the first ten thousand is found, and where there is none the search fails.
pub proof fn ten_thousand_names_are_tried(name: Seq<char>, taken: spec_fn(Seq<char>) -> bool)
    ensures
        free_index(name, taken, 0) is None <==> forall|i: nat|
            i < 10_000 ==> taken(#[trigger] candidate(name, i)),
        free_index(name, taken, 0) matches Some(found) ==> !taken(candidate(name, found))
            && forall|i: nat| i < found ==> taken(#[trigger] candidate(name, i)),
{
    search_takes_first_free_name(name, taken, 0);
}

/// A name that is free is used, and one that is taken makes the search go on with the next number.
/// The first name is used whether or not it is taken exactly if what is there is overwritten.
pub proof fn taken_names_are_passed_over(
    search: &mut OutputSearch,
    exists: bool,
    used: Result<bool, DownloadError>,
    settled: bool,
)
    requires
        call_ensures(OutputSearch::answer, (search, exists), used),
        call_ensures(OutputSearch::is_settled, (&*old(search),), settled),
    ensures
        final(search).name@ == old(search).name@,
        !exists ==> used == Ok::<bool, DownloadError>(true) && final(search).index == old(
            search,
        ).index,
        exists && old(search).index < 9_999 ==> used == Ok::<bool, DownloadError>(false) && final(
            search
        ).index == old(search).index + 1,
        exists && old(search).index == 9_999 ==> used is Err,
        settled <==> old(search).overwrite && old(search).index == 0,
{
}

/// What is kept beside a file until it is complete has the file's own name with an ending behind
/// it, and two files never share it.
pub proof fn artifacts_stand_beside_their_file(
    name: Option<&str>,
    other: Option<&str>,
    part: String,
    manifest: String,
    other_part: String,
)
    requires
        call_ensures(part_name_for, (name,), part),
        call_ensures(manifest_name_for, (name,), manifest),
        call_ensures(part_name_for, (other,), other_part),
    ensures
        name matches Some(found) ==> part@ == found@ + ".megadown.part"@ && manifest@ == found@
            + ".megadown.json"@,
        name is None ==> part@ == "download.megadown.part"@,
        part@ != manifest@,
        name is Some && other is Some && part@ == other_part@ ==> name->0@ == other->0@,
{
    reveal_strlit(".megadown.part");
    reveal_strlit("download.megadown.part");
    reveal_strlit("download");
    artifact_names_are_distinct(name_or_download(optional_str(name)));
    if name is None {
        assert("download"@ + ".megadown.part"@ =~= "download.megadown.part"@);
    }
    if name is Some && other is Some && part@ == other_part@ {
        let n = name->0@.len() as int;
        assert(part@.len() == n + ".megadown.part"@.len());
        assert(other_part@.len() == other->0@.len() + ".megadown.part"@.len());
        assert(part@.take(n) =~= name->0@);
        assert(other_part@.take(n) =~= other->0@);
    }
}

} // verus!
