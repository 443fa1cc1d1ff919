//! The Linux `hwmon` sysfs interface (`/sys/class/hwmon`).
//!
//! A [`Sysfs`] is a picture of the tree at one moment, taken by the caller.
//! Reading goes by such a picture; writing yields the [`FileWrite`]s that the
//! caller carries out, in order, stopping at the first one that fails.

use vstd::prelude::*;
use crate::config;
use crate::number;
use crate::order;
use crate::quantity;
use crate::quantity::FULL;
use crate::register;
use crate::text;

verus! {

/// Where the kernel keeps the hwmon tree.
pub const SYS_HWMON: &'static str = "/sys/class/hwmon";

/// A file of a chip's directory.
#[derive(Debug, PartialEq)]
pub struct SysFile {
    pub name: String,
    /// What the file holds; `None` when it cannot be read.
    pub text: Option<String>,
}

/// A directory entry below the base of the tree, with the files in it.
#[derive(Debug, PartialEq)]
pub struct SysDir {
    pub name: String,
    pub is_dir: bool,
    pub files: Vec<SysFile>,
}

/// A picture of the hwmon tree.
#[derive(Debug, PartialEq)]
pub struct Sysfs {
    /// The path of the tree (`/sys/class/hwmon`).
    pub base: String,
    pub dirs: Vec<SysDir>,
}

/// A [`SysFile`] with its text as character sequences.
pub struct SysFileView {
    pub name: Seq<char>,
    pub text: Option<Seq<char>>,
}

/// A [`SysDir`] with its text as character sequences.
pub struct SysDirView {
    pub name: Seq<char>,
    pub is_dir: bool,
    pub files: Seq<SysFileView>,
}

/// A [`Sysfs`] with its text as character sequences.
pub struct SysfsView {
    pub base: Seq<char>,
    pub dirs: Seq<SysDirView>,
}

impl View for SysFile {
    type V = SysFileView;

    open spec fn view(&self) -> SysFileView {
        SysFileView { name: self.name@, text: self.text.deep_view() }
    }
}

impl DeepView for SysFile {
    type V = SysFileView;

    open spec fn deep_view(&self) -> SysFileView {
        self.view()
    }
}

impl View for SysDir {
    type V = SysDirView;

    open spec fn view(&self) -> SysDirView {
        SysDirView { name: self.name@, is_dir: self.is_dir, files: self.files.deep_view() }
    }
}

impl DeepView for SysDir {
    type V = SysDirView;

    open spec fn deep_view(&self) -> SysDirView {
        self.view()
    }
}

impl View for Sysfs {
    type V = SysfsView;

    open spec fn view(&self) -> SysfsView {
        SysfsView { base: self.base@, dirs: self.dirs.deep_view() }
    }
}

impl DeepView for Sysfs {
    type V = SysfsView;

    open spec fn deep_view(&self) -> SysfsView {
        self.view()
    }
}

/// A single hwmon chip (a `hwmonN` directory).
#[derive(Debug, PartialEq)]
pub struct Hwmon {
    /// The value of the chip's `name` file (e.g. `it8792`, `k10temp`).
    pub name: String,
    /// The directory name (e.g. `hwmon5`), which is unique even when several
    /// chips share the same `name`.
    pub dir: String,
    /// The path to the `hwmonN` directory.
    pub path: String,
}

/// A [`Hwmon`] with its text as character sequences.
pub struct HwmonView {
    pub name: Seq<char>,
    pub dir: Seq<char>,
    pub path: Seq<char>,
}

impl View for Hwmon {
    type V = HwmonView;

    open spec fn view(&self) -> HwmonView {
        HwmonView { name: self.name@, dir: self.dir@, path: self.path@ }
    }
}

impl DeepView for Hwmon {
    type V = HwmonView;

    open spec fn deep_view(&self) -> HwmonView {
        self.view()
    }
}

impl Clone for Hwmon {
    fn clone(&self) -> (r: Hwmon)
        ensures
            r@ == self@,
    {
        Hwmon { name: self.name.clone(), dir: self.dir.clone(), path: self.path.clone() }
    }
}

/// One value to write to one file of a chip.
#[derive(Debug, PartialEq)]
pub struct FileWrite {
    /// The file's name in the chip's directory.
    pub file: String,
    pub value: String,
}

/// A [`FileWrite`] with its text as character sequences.
pub struct FileWriteView {
    pub file: Seq<char>,
    pub value: Seq<char>,
}

impl View for FileWrite {
    type V = FileWriteView;

    open spec fn view(&self) -> FileWriteView {
        FileWriteView { file: self.file@, value: self.value@ }
    }
}

impl DeepView for FileWrite {
    type V = FileWriteView;

    open spec fn deep_view(&self) -> FileWriteView {
        self.view()
    }
}

// ---- the tree -------------------------------------------------------------

/// The place of the first directory called `name`, or the number of them.
pub open spec fn dir_place(dirs: Seq<SysDirView>, name: Seq<char>) -> nat
    decreases dirs.len(),
{
    if dirs.len() == 0 || dirs[0].name == name {
        0
    } else {
        1 + dir_place(dirs.skip(1), name)
    }
}

/// The place of the first file called `name`, or the number of them.
pub open spec fn file_place(files: Seq<SysFileView>, name: Seq<char>) -> nat
    decreases files.len(),
{
    if files.len() == 0 || files[0].name == name {
        0
    } else {
        1 + file_place(files.skip(1), name)
    }
}

/// The files in the directory `dir`; none when there is no such directory.
pub open spec fn files_in(fs: SysfsView, dir: Seq<char>) -> Seq<SysFileView> {
    let d = dir_place(fs.dirs, dir) as int;
    if d < fs.dirs.len() {
        fs.dirs[d].files
    } else {
        Seq::empty()
    }
}

/// What the file `name` in the directory `dir` holds, if it can be read.
pub open spec fn content(fs: SysfsView, dir: Seq<char>, name: Seq<char>) -> Option<Seq<char>> {
    let files = files_in(fs, dir);
    let f = file_place(files, name) as int;
    if f < files.len() {
        files[f].text
    } else {
        None
    }
}

pub proof fn lemma_dir_place(dirs: Seq<SysDirView>, name: Seq<char>)
    ensures
        dir_place(dirs, name) <= dirs.len(),
        dir_place(dirs, name) < dirs.len() ==> dirs[dir_place(dirs, name) as int].name == name,
        forall|i: int| 0 <= i < dir_place(dirs, name) ==> (#[trigger] dirs[i]).name != name,
    decreases dirs.len(),
{
    if dirs.len() > 0 && dirs[0].name != name {
        let t = dirs.skip(1);
        lemma_dir_place(t, name);
        assert forall|i: int| 0 <= i < dir_place(dirs, name) implies (#[trigger] dirs[i]).name
            != name by {
            if i > 0 {
                assert(t[i - 1] == dirs[i]);
            }
        }
    }
}

pub proof fn lemma_file_place(files: Seq<SysFileView>, name: Seq<char>)
    ensures
        file_place(files, name) <= files.len(),
        file_place(files, name) < files.len() ==> files[file_place(files, name) as int].name
            == name,
        forall|i: int| 0 <= i < file_place(files, name) ==> (#[trigger] files[i]).name != name,
    decreases files.len(),
{
    if files.len() > 0 && files[0].name != name {
        let t = files.skip(1);
        lemma_file_place(t, name);
        assert forall|i: int| 0 <= i < file_place(files, name) implies (#[trigger] files[i]).name
            != name by {
            if i > 0 {
                assert(t[i - 1] == files[i]);
            }
        }
    }
}

proof fn lemma_dir_place_is(dirs: Seq<SysDirView>, name: Seq<char>, n: int)
    requires
        0 <= n <= dirs.len(),
        n < dirs.len() ==> dirs[n].name == name,
        forall|i: int| 0 <= i < n ==> (#[trigger] dirs[i]).name != name,
    ensures
        dir_place(dirs, name) == n,
{
    lemma_dir_place(dirs, name);
    let f = dir_place(dirs, name) as int;
    if f < n {
        assert(dirs[f].name != name);
    } else if n < f {
        assert(dirs[n].name != name);
    }
}

proof fn lemma_file_place_is(files: Seq<SysFileView>, name: Seq<char>, n: int)
    requires
        0 <= n <= files.len(),
        n < files.len() ==> files[n].name == name,
        forall|i: int| 0 <= i < n ==> (#[trigger] files[i]).name != name,
    ensures
        file_place(files, name) == n,
{
    lemma_file_place(files, name);
    let f = file_place(files, name) as int;
    if f < n {
        assert(files[f].name != name);
    } else if n < f {
        assert(files[n].name != name);
    }
}

fn find_dir(dirs: &Vec<SysDir>, name: &str) -> (r: usize)
    ensures
        r == dir_place(dirs.deep_view(), name@),
        r <= dirs@.len(),
{
    let mut i: usize = 0;
    while i < dirs.len() && !text::str_eq(dirs[i].name.as_str(), name)
        invariant
            i <= dirs@.len(),
            forall|j: int| 0 <= j < i ==> (#[trigger] dirs.deep_view()[j]).name != name@,
        decreases dirs@.len() - i,
    {
        assert(dirs.deep_view()[i as int].name == dirs@[i as int].name@);
        i += 1;
    }
    proof {
        lemma_dir_place_is(dirs.deep_view(), name@, i as int);
    }
    i
}

fn find_file(files: &Vec<SysFile>, name: &str) -> (r: usize)
    ensures
        r == file_place(files.deep_view(), name@),
        r <= files@.len(),
{
    let mut i: usize = 0;
    while i < files.len() && !text::str_eq(files[i].name.as_str(), name)
        invariant
            i <= files@.len(),
            forall|j: int| 0 <= j < i ==> (#[trigger] files.deep_view()[j]).name != name@,
        decreases files@.len() - i,
    {
        assert(files.deep_view()[i as int].name == files@[i as int].name@);
        i += 1;
    }
    proof {
        lemma_file_place_is(files.deep_view(), name@, i as int);
    }
    i
}

// ---- finding chips --------------------------------------------------------

/// Whether a directory entry is a chip.
pub open spec fn is_chip(d: SysDirView) -> bool {
    text::begins_with(d.name, "hwmon"@) && d.is_dir
}

/// The chip in a directory. Without a readable `name` file it goes by the
/// number in the directory's name.
pub open spec fn chip_in(base: Seq<char>, d: SysDirView) -> HwmonView {
    let f = file_place(d.files, "name"@) as int;
    HwmonView {
        name: if f < d.files.len() && d.files[f].text is Some {
            text::trimmed(d.files[f].text->0)
        } else {
            text::without_leading(d.name, "hwmon"@)
        },
        dir: d.name,
        path: config::in_dir(base, d.name),
    }
}

/// The chips among directory entries, in the order of the entries.
pub open spec fn chips_among(base: Seq<char>, dirs: Seq<SysDirView>) -> Seq<HwmonView>
    decreases dirs.len(),
{
    if dirs.len() == 0 {
        Seq::empty()
    } else {
        let rest = chips_among(base, dirs.drop_last());
        if is_chip(dirs.last()) {
            rest.push(chip_in(base, dirs.last()))
        } else {
            rest
        }
    }
}

/// Lexicographic order by character.
pub open spec fn lex_le(a: Seq<char>, b: Seq<char>) -> bool
    decreases a.len(),
{
    if a.len() == 0 {
        true
    } else if b.len() == 0 {
        false
    } else if a[0] != b[0] {
        a[0] < b[0]
    } else {
        lex_le(a.skip(1), b.skip(1))
    }
}

/// The order of chips: by directory name.
pub open spec fn by_dir() -> spec_fn(HwmonView, HwmonView) -> bool {
    |a: HwmonView, b: HwmonView| lex_le(a.dir, b.dir)
}

/// The chips of a tree, in order of their directory names.
pub open spec fn chips_of(fs: SysfsView) -> Seq<HwmonView> {
    order::sorted_by(chips_among(fs.base, fs.dirs), by_dir())
}

/// Whether `a` comes no later than `b`, character by character.
pub fn str_le(a: &str, b: &str) -> (r: bool)
    ensures
        r == lex_le(a@, b@),
{
    let x = text::chars_of(a);
    let y = text::chars_of(b);
    let mut i: usize = 0;
    assert(x@.skip(0) =~= x@ && y@.skip(0) =~= y@);
    while i < x.len() && i < y.len() && x[i] == y[i]
        invariant
            i <= x@.len(),
            i <= y@.len(),
            x@ == a@,
            y@ == b@,
            lex_le(a@, b@) == lex_le(x@.skip(i as int), y@.skip(i as int)),
        decreases x@.len() - i,
    {
        assert(x@.skip(i as int).skip(1) =~= x@.skip(i + 1));
        assert(y@.skip(i as int).skip(1) =~= y@.skip(i + 1));
        i += 1;
    }
    if i == x.len() {
        true
    } else if i == y.len() {
        false
    } else {
        x[i] < y[i]
    }
}

/// The chip in a directory entry, if it is one.
fn chip_from(base: &str, d: &SysDir) -> (r: Option<Hwmon>)
    ensures
        r.deep_view() == if is_chip(d@) {
            Some(chip_in(base@, d@))
        } else {
            None
        },
{
    if !text::starts_with(d.name.as_str(), "hwmon") || !d.is_dir {
        return None;
    }
    let f = find_file(&d.files, "name");
    let mut name = text::trim_start_matches(d.name.as_str(), "hwmon");
    if f < d.files.len() {
        assert(d.files.deep_view()[f as int] == d.files@[f as int]@);
        match &d.files[f].text {
            Some(t) => {
                name = text::trim(t.as_str());
            },
            None => {},
        }
    }
    Some(Hwmon { name, dir: d.name.clone(), path: config::join_path(base, d.name.as_str()) })
}

/// Discover all hwmon chips of a tree, in a stable order.
pub fn discover(fs: &Sysfs) -> (r: Vec<Hwmon>)
    ensures
        r.deep_view() == chips_of(fs@),
{
    let mut out: Vec<Hwmon> = Vec::new();
    let ghost dirs = fs.dirs.deep_view();
    let mut i: usize = 0;
    assert(dirs.take(0) =~= Seq::<SysDirView>::empty());
    assert(out.deep_view() =~= Seq::<HwmonView>::empty());
    while i < fs.dirs.len()
        invariant
            i <= fs.dirs@.len(),
            dirs == fs.dirs.deep_view(),
            out.deep_view() == order::sorted_by(
                chips_among(fs.base@, dirs.take(i as int)),
                by_dir(),
            ),
        decreases fs.dirs@.len() - i,
    {
        proof {
            assert(dirs.take(i + 1).drop_last() =~= dirs.take(i as int));
            assert(dirs.take(i + 1).last() == fs.dirs@[i as int]@);
        }
        match chip_from(fs.base.as_str(), &fs.dirs[i]) {
            Some(c) => {
                let ghost before = out.deep_view();
                let ghost found = chips_among(fs.base@, dirs.take(i as int));
                let mut at: usize = out.len();
                while at > 0 && !str_le(out[at - 1].dir.as_str(), c.dir.as_str())
                    invariant
                        at <= out@.len(),
                        before == out.deep_view(),
                        forall|j: int|
                            at <= j < out@.len() ==> !lex_le(#[trigger] before[j].dir, c.dir@),
                    decreases at,
                {
                    assert(before[at - 1] == out@[at - 1]@);
                    at -= 1;
                }
                proof {
                    if at > 0 {
                        assert(before[at - 1] == out@[at - 1]@);
                    }
                    order::lemma_placed_at(before, by_dir(), c@, at as int);
                    assert(found.push(c@).drop_last() =~= found);
                }
                out.insert(at, c);
                assert(out.deep_view() =~= before.insert(at as int, c@));
            },
            None => {},
        }
        i += 1;
    }
    assert(dirs.take(i as int) =~= dirs);
    out
}

/// How many chips are called `name`.
pub open spec fn name_count(chips: Seq<HwmonView>, name: Seq<char>) -> nat
    decreases chips.len(),
{
    if chips.len() == 0 {
        0
    } else {
        name_count(chips.drop_last(), name) + if chips.last().name == name {
            1
        } else {
            0nat
        }
    }
}

/// The place of the first chip that `hit` picks, or the number of chips.
pub open spec fn chip_place(chips: Seq<HwmonView>, hit: spec_fn(HwmonView) -> bool) -> nat
    decreases chips.len(),
{
    if chips.len() == 0 || hit(chips[0]) {
        0
    } else {
        1 + chip_place(chips.skip(1), hit)
    }
}

/// The chip a config reference stands for: the only chip of that name, or
/// else the chip in the directory of that name.
pub open spec fn resolved(chips: Seq<HwmonView>, reference: Seq<char>) -> Option<HwmonView> {
    let n = chip_place(chips, |c: HwmonView| c.name == reference) as int;
    let d = chip_place(chips, |c: HwmonView| c.dir == reference) as int;
    if name_count(chips, reference) == 1 {
        Some(chips[n])
    } else if d < chips.len() {
        Some(chips[d])
    } else {
        None
    }
}

pub proof fn lemma_chip_place(chips: Seq<HwmonView>, hit: spec_fn(HwmonView) -> bool)
    ensures
        chip_place(chips, hit) <= chips.len(),
        chip_place(chips, hit) < chips.len() ==> hit(chips[chip_place(chips, hit) as int]),
        forall|i: int| 0 <= i < chip_place(chips, hit) ==> !hit(#[trigger] chips[i]),
    decreases chips.len(),
{
    if chips.len() > 0 && !hit(chips[0]) {
        let t = chips.skip(1);
        lemma_chip_place(t, hit);
        assert forall|i: int| 0 <= i < chip_place(chips, hit) implies !hit(#[trigger] chips[i]) by {
            if i > 0 {
                assert(t[i - 1] == chips[i]);
            }
        }
    }
}

proof fn lemma_chip_place_is(chips: Seq<HwmonView>, hit: spec_fn(HwmonView) -> bool, n: int)
    requires
        0 <= n <= chips.len(),
        n < chips.len() ==> hit(chips[n]),
        forall|i: int| 0 <= i < n ==> !hit(#[trigger] chips[i]),
    ensures
        chip_place(chips, hit) == n,
{
    lemma_chip_place(chips, hit);
    let f = chip_place(chips, hit) as int;
    if f < n {
        assert(!hit(chips[f]));
    } else if n < f {
        assert(!hit(chips[n]));
    }
}

proof fn lemma_name_count(chips: Seq<HwmonView>, name: Seq<char>)
    ensures
        name_count(chips, name) == 0 <==> forall|i: int|
            0 <= i < chips.len() ==> (#[trigger] chips[i]).name != name,
        name_count(chips, name) == 1 ==> forall|i: int, j: int|
            0 <= i < chips.len() && 0 <= j < chips.len() && (#[trigger] chips[i]).name == name
                && (#[trigger] chips[j]).name == name ==> i == j,
        name_count(chips, name) <= chips.len(),
    decreases chips.len(),
{
    if chips.len() > 0 {
        let t = chips.drop_last();
        lemma_name_count(t, name);
        assert(forall|i: int| 0 <= i < t.len() ==> t[i] == #[trigger] chips[i]);
        if chips.last().name != name && name_count(t, name) == 0 {
            assert forall|i: int| 0 <= i < chips.len() implies (#[trigger] chips[i]).name
                != name by {
                if i < t.len() {
                    assert(t[i].name != name);
                }
            }
        } else if name_count(t, name) > 0 {
            let k = choose|k: int| 0 <= k < t.len() && (#[trigger] t[k]).name == name;
            assert(chips[k].name == name);
        } else {
            assert(chips[chips.len() - 1].name == name);
        }
    }
}

/// How many chips are called `name`.
pub fn count_named(chips: &Vec<Hwmon>, name: &str) -> (r: usize)
    ensures
        r == name_count(chips.deep_view(), name@),
{
    let ghost s = chips.deep_view();
    let mut n: usize = 0;
    let mut i: usize = 0;
    assert(s.take(0) =~= Seq::<HwmonView>::empty());
    while i < chips.len()
        invariant
            i <= chips@.len(),
            s == chips.deep_view(),
            n == name_count(s.take(i as int), name@),
            n <= i,
        decreases chips@.len() - i,
    {
        proof {
            assert(s.take(i + 1).drop_last() =~= s.take(i as int));
            assert(s.take(i + 1).last() == chips@[i as int]@);
        }
        if text::str_eq(chips[i].name.as_str(), name) {
            n += 1;
        }
        i += 1;
    }
    assert(s.take(i as int) =~= s);
    n
}

/// Resolve a config chip reference to a specific chip. The ref may be a chip
/// name (e.g. `it8792`) or a directory (e.g. `hwmon2`). Names are tried first
/// (for friendliness); a name mapping to several chips is disambiguated by the
/// directory.
pub fn resolve<'a>(chips: &'a Vec<Hwmon>, reference: &str) -> (r: Option<&'a Hwmon>)
    ensures
        r.deep_view() == resolved(chips.deep_view(), reference@),
{
    let ghost s = chips.deep_view();
    let ghost named = |c: HwmonView| c.name == reference@;
    let ghost placed = |c: HwmonView| c.dir == reference@;
    let n = count_named(chips, reference);
    let mut i: usize = 0;
    if n == 1 {
        while i < chips.len() && !text::str_eq(chips[i].name.as_str(), reference)
            invariant
                i <= chips@.len(),
                s == chips.deep_view(),
                named == |c: HwmonView| c.name == reference@,
                forall|j: int| 0 <= j < i ==> !named(#[trigger] s[j]),
            decreases chips@.len() - i,
        {
            assert(s[i as int] == chips@[i as int]@);
            i += 1;
        }
        proof {
            lemma_name_count(s, reference@);
            if i < chips@.len() {
                assert(s[i as int] == chips@[i as int]@);
            } else {
                assert(forall|j: int| 0 <= j < s.len() ==> !named(#[trigger] s[j]));
            }
            lemma_chip_place_is(s, named, i as int);
        }
        return Some(&chips[i]);
    }
    while i < chips.len() && !text::str_eq(chips[i].dir.as_str(), reference)
        invariant
            i <= chips@.len(),
            s == chips.deep_view(),
            placed == |c: HwmonView| c.dir == reference@,
            forall|j: int| 0 <= j < i ==> !placed(#[trigger] s[j]),
        decreases chips@.len() - i,
    {
        assert(s[i as int] == chips@[i as int]@);
        i += 1;
    }
    proof {
        if i < chips@.len() {
            assert(s[i as int] == chips@[i as int]@);
        }
        lemma_chip_place_is(s, placed, i as int);
    }
    if i < chips.len() {
        Some(&chips[i])
    } else {
        None
    }
}

/// A name that one chip alone has leads to that chip.
pub proof fn law_name_resolves(chips: Seq<HwmonView>, i: int)
    requires
        0 <= i < chips.len(),
        name_count(chips, chips[i].name) == 1,
    ensures
        resolved(chips, chips[i].name) == Some(chips[i]),
{
    let name = chips[i].name;
    lemma_name_count(chips, name);
    lemma_chip_place_is(chips, |c: HwmonView| c.name == name, i);
}

/// A chip's directory leads to the chip, and so tells chips of one name apart,
/// as long as no chip before it has the same directory and the directory is
/// not the name of one other chip.
pub proof fn law_directory_resolves(chips: Seq<HwmonView>, i: int)
    requires
        0 <= i < chips.len(),
        forall|j: int| 0 <= j < i ==> (#[trigger] chips[j]).dir != chips[i].dir,
        name_count(chips, chips[i].dir) == 1 ==> chips[i].name == chips[i].dir,
    ensures
        resolved(chips, chips[i].dir) == Some(chips[i]),
{
    let dir = chips[i].dir;
    lemma_chip_place_is(chips, |c: HwmonView| c.dir == dir, i);
    if name_count(chips, dir) == 1 {
        law_name_resolves(chips, i);
    }
}

// ---- reading --------------------------------------------------------------

/// The trimmed content of a chip's file, if it can be read.
pub open spec fn reading(fs: SysfsView, dir: Seq<char>, name: Seq<char>) -> Option<Seq<char>> {
    match content(fs, dir, name) {
        Some(t) => Some(text::trimmed(t)),
        None => None,
    }
}

/// The number in a chip's file, if there is one.
pub open spec fn int_reading(fs: SysfsView, dir: Seq<char>, name: Seq<char>) -> Option<int> {
    match reading(fs, dir, name) {
        Some(t) => number::parsed_int(t),
        None => None,
    }
}

/// The number in a chip's file, if there is one in the range of `u32`.
pub open spec fn u32_reading(fs: SysfsView, dir: Seq<char>, name: Seq<char>) -> Option<u32> {
    match int_reading(fs, dir, name) {
        Some(v) => if 0 <= v <= u32::MAX {
            Some(v as u32)
        } else {
            None
        },
        None => None,
    }
}

/// The number behind `prefix` in a file name: a run of digits with nothing
/// or an underscore after it.
pub open spec fn number_in(name: Seq<char>, prefix: Seq<char>) -> Option<nat> {
    match text::after_prefix(name, prefix) {
        Some(rest) => {
            let n = leading_digits(rest) as int;
            if n == rest.len() || rest[n] == '_' {
                if n > 0 && number::digits_value(rest.take(n)) <= u32::MAX {
                    Some(number::digits_value(rest.take(n)))
                } else {
                    None
                }
            } else {
                None
            }
        },
        None => None,
    }
}

/// How many digits `s` starts with.
pub open spec fn leading_digits(s: Seq<char>) -> nat
    decreases s.len(),
{
    if s.len() > 0 && text::digit(s[0]) {
        1 + leading_digits(s.skip(1))
    } else {
        0
    }
}

/// `x` put in its place among increasing numbers, unless it is there already.
pub open spec fn with_number(s: Seq<u32>, x: u32) -> Seq<u32>
    decreases s.len(),
{
    if s.len() == 0 || s.last() < x {
        s.push(x)
    } else if s.last() == x {
        s
    } else {
        with_number(s.drop_last(), x).push(s.last())
    }
}

/// The numbers behind `prefix` in the names of files, in increasing order,
/// each of them once.
pub open spec fn numbers_among(files: Seq<SysFileView>, prefix: Seq<char>) -> Seq<u32>
    decreases files.len(),
{
    if files.len() == 0 {
        Seq::empty()
    } else {
        let rest = numbers_among(files.drop_last(), prefix);
        match number_in(files.last().name, prefix) {
            Some(n) => with_number(rest, n as u32),
            None => rest,
        }
    }
}

proof fn lemma_leading_digits(s: Seq<char>)
    ensures
        leading_digits(s) <= s.len(),
        number::all_digits(s.take(leading_digits(s) as int)),
        leading_digits(s) < s.len() ==> !text::digit(s[leading_digits(s) as int]),
    decreases s.len(),
{
    if s.len() > 0 && text::digit(s[0]) {
        let t = s.skip(1);
        lemma_leading_digits(t);
        let n = leading_digits(s) as int;
        assert forall|i: int| 0 <= i < n implies text::digit(#[trigger] s.take(n)[i]) by {
            if i > 0 {
                assert(text::digit(t.take(n - 1)[i - 1]));
            }
        }
    }
}

fn parse_number_in(name: &str, prefix: &str) -> (r: Option<u32>)
    ensures
        r is Some <==> number_in(name@, prefix@) is Some,
        r matches Some(n) ==> number_in(name@, prefix@) == Some(n as nat),
{
    let rest = match text::strip_prefix(name, prefix) {
        Some(x) => x,
        None => {
            return None;
        },
    };
    let v = text::chars_of(rest.as_str());
    let mut n: usize = 0;
    assert(v@.skip(0) =~= v@);
    while n < v.len() && text::is_digit(v[n])
        invariant
            n <= v@.len(),
            v@ == rest@,
            leading_digits(rest@) == n + leading_digits(v@.skip(n as int)),
        decreases v@.len() - n,
    {
        assert(v@.skip(n as int).skip(1) =~= v@.skip(n + 1));
        n += 1;
    }
    proof {
        lemma_leading_digits(rest@);
    }
    if n == v.len() || v[n] == '_' {
        let digits = text::string_of(&v, 0, n);
        assert(digits@ =~= rest@.take(n as int));
        proof {
            if digits@.len() > 0 {
                assert(text::digit(digits@[0]));
            }
        }
        number::parse_u32(digits.as_str())
    } else {
        None
    }
}

/// Put `x` in its place among increasing numbers.
fn add_number(out: &mut Vec<u32>, x: u32)
    ensures
        final(out)@ == with_number(old(out)@, x),
{
    let ghost before = out@;
    let mut at: usize = out.len();
    assert(before.take(at as int) =~= before);
    assert(before.skip(at as int) =~= Seq::<u32>::empty());
    while at > 0 && out[at - 1] > x
        invariant
            at <= out@.len(),
            out@ == before,
            with_number(before, x) =~= with_number(before.take(at as int), x) + before.skip(
                at as int,
            ),
        decreases at,
    {
        let ghost t = before.take(at as int);
        assert(t.drop_last() =~= before.take(at - 1));
        assert(before.skip(at - 1) =~= seq![before[at - 1]] + before.skip(at as int));
        at -= 1;
    }
    let ghost t = before.take(at as int);
    if at > 0 && out[at - 1] == x {
        assert(t + before.skip(at as int) =~= before);
        return;
    }
    out.insert(at, x);
    assert(out@ =~= t.push(x) + before.skip(at as int));
}

impl Hwmon {
    /// The path of a file of this chip.
    pub fn file(&self, name: &str) -> (r: String)
        ensures
            r@ == config::in_dir(self@.path, name@),
    {
        config::join_path(self.path.as_str(), name)
    }

    /// What is said of a write to one of this chip's files that failed.
    pub fn write_failure(&self, name: &str, why: &str) -> (r: String)
        ensures
            r@ == "failed to write "@ + config::in_dir(self@.path, name@) + ": "@ + why@,
    {
        let path = self.file(name);
        let head = text::cat3("failed to write ", path.as_str(), ": ");
        text::cat(head.as_str(), why)
    }

    /// Read a file from this chip, returning the trimmed string.
    pub fn read(&self, fs: &Sysfs, name: &str) -> (r: Option<String>)
        ensures
            r.deep_view() == reading(fs@, self@.dir, name@),
    {
        let d = find_dir(&fs.dirs, self.dir.as_str());
        if d == fs.dirs.len() {
            return None;
        }
        assert(fs@.dirs[d as int] == fs.dirs@[d as int]@);
        let f = find_file(&fs.dirs[d].files, name);
        if f == fs.dirs[d].files.len() {
            return None;
        }
        assert(fs@.dirs[d as int].files[f as int] == fs.dirs@[d as int].files@[f as int]@);
        match &fs.dirs[d].files[f].text {
            Some(t) => Some(text::trim(t.as_str())),
            None => None,
        }
    }

    pub fn read_i64(&self, fs: &Sysfs, name: &str) -> (r: Option<i64>)
        ensures
            r is Some <==> int_reading(fs@, self@.dir, name@) is Some,
            r matches Some(v) ==> int_reading(fs@, self@.dir, name@) == Some(v as int),
    {
        match self.read(fs, name) {
            Some(t) => number::parse_i64(t.as_str()),
            None => None,
        }
    }

    fn read_u32(&self, fs: &Sysfs, name: &str) -> (r: Option<u32>)
        ensures
            r == u32_reading(fs@, self@.dir, name@),
    {
        match self.read_i64(fs, name) {
            Some(v) => {
                if 0 <= v && v <= u32::MAX as i64 {
                    Some(v as u32)
                } else {
                    None
                }
            },
            None => None,
        }
    }

    /// Numbers of the PWM channels this chip exposes (`pwm1`, `pwm2`, ...).
    pub fn pwm_numbers(&self, fs: &Sysfs) -> (r: Vec<u32>)
        ensures
            r@ == numbers_among(files_in(fs@, self@.dir), "pwm"@),
    {
        self.list_numbers(fs, "pwm")
    }

    /// Numbers of the temperature sensors (`temp1`, `temp2`, ...).
    pub fn temp_numbers(&self, fs: &Sysfs) -> (r: Vec<u32>)
        ensures
            r@ == numbers_among(files_in(fs@, self@.dir), "temp"@),
    {
        self.list_numbers(fs, "temp")
    }

    /// Numbers of the fan tachometer sensors (`fan1`, `fan2`, ...).
    pub fn fan_numbers(&self, fs: &Sysfs) -> (r: Vec<u32>)
        ensures
            r@ == numbers_among(files_in(fs@, self@.dir), "fan"@),
    {
        self.list_numbers(fs, "fan")
    }

    fn list_numbers(&self, fs: &Sysfs, prefix: &str) -> (r: Vec<u32>)
        ensures
            r@ == numbers_among(files_in(fs@, self@.dir), prefix@),
    {
        let mut out: Vec<u32> = Vec::new();
        let d = find_dir(&fs.dirs, self.dir.as_str());
        if d == fs.dirs.len() {
            return out;
        }
        assert(fs@.dirs[d as int] == fs.dirs@[d as int]@);
        let ghost files = files_in(fs@, self@.dir);
        let mut i: usize = 0;
        assert(files.take(0) =~= Seq::<SysFileView>::empty());
        while i < fs.dirs[d].files.len()
            invariant
                d < fs.dirs@.len(),
                i <= fs.dirs@[d as int].files@.len(),
                files == fs.dirs@[d as int].files.deep_view(),
                out@ == numbers_among(files.take(i as int), prefix@),
            decreases fs.dirs@[d as int].files@.len() - i,
        {
            proof {
                assert(files.take(i + 1).drop_last() =~= files.take(i as int));
                assert(files.take(i + 1).last() == fs.dirs@[d as int].files@[i as int]@);
            }
            match parse_number_in(fs.dirs[d].files[i].name.as_str(), prefix) {
                Some(n) => {
                    add_number(&mut out, n);
                },
                None => {},
            }
            i += 1;
        }
        assert(files.take(i as int) =~= files);
        out
    }
}

// ---- fan (PWM) control ----------------------------------------------------

/// The file of channel `n`: `pwm1`, `pwm1_enable`, `fan1_input`, ...
pub open spec fn channel_file(kind: Seq<char>, n: u32, part: Seq<char>) -> Seq<char> {
    kind + number::decimal(n as nat) + part
}

pub fn channel_name(kind: &str, n: u32, part: &str) -> (r: String)
    ensures
        r@ == channel_file(kind@, n, part@),
{
    let d = number::u64_text(n as u64);
    text::cat3(kind, d.as_str(), part)
}

/// The writes that switch channel `n` to manual at the duty `pct`.
pub open spec fn manual_writes(n: u32, pct: int, pwm_max: u32) -> Seq<FileWriteView> {
    seq![
        FileWriteView { file: channel_file("pwm"@, n, "_enable"@), value: "1"@ },
        FileWriteView {
            file: channel_file("pwm"@, n, ""@),
            value: number::decimal(register::raw_duty(pct, pwm_max) as nat),
        },
    ]
}

/// The writes that hand channel `n` to the chip's own algorithm.
pub open spec fn auto_writes(n: u32) -> Seq<FileWriteView> {
    seq![FileWriteView { file: channel_file("pwm"@, n, "_enable"@), value: "2"@ }]
}

/// The duty channel `n` of a chip runs at, if that can be told.
pub open spec fn duty_of(fs: SysfsView, dir: Seq<char>, n: u32, pwm_max: u32) -> Option<int> {
    let min = match u32_reading(fs, dir, channel_file("pwm"@, n, "_min"@)) {
        Some(v) => v,
        None => 0,
    };
    let max = match u32_reading(fs, dir, channel_file("pwm"@, n, "_max"@)) {
        Some(v) => v,
        None => pwm_max,
    };
    match u32_reading(fs, dir, channel_file("pwm"@, n, ""@)) {
        Some(raw) => register::percent_of(raw, min, max),
        None => None,
    }
}

/// The tachometer reading of channel `n`, if there is one.
pub open spec fn tach_of(fs: SysfsView, dir: Seq<char>, n: u32) -> Option<int> {
    match int_reading(fs, dir, channel_file("fan"@, n, "_input"@)) {
        Some(v) => Some(v),
        None => int_reading(fs, dir, channel_file("fan"@, n, "_rpm"@)),
    }
}

impl Hwmon {
    /// The current raw PWM value for channel `n`, if readable.
    pub fn pwm_raw(&self, fs: &Sysfs, n: u32) -> (r: Option<u32>)
        ensures
            r == u32_reading(fs@, self@.dir, channel_file("pwm"@, n, ""@)),
    {
        let f = channel_name("pwm", n, "");
        self.read_u32(fs, f.as_str())
    }

    /// The current PWM enable/mode bits for channel `n`.
    ///
    /// The meaning of the value is driver-specific: `0` = off, `1` = manual,
    /// `2` = chip auto on the it87 family. Only `1` and `2` are ever written.
    pub fn pwm_enable(&self, fs: &Sysfs, n: u32) -> (r: Option<u32>)
        ensures
            r == u32_reading(fs@, self@.dir, channel_file("pwm"@, n, "_enable"@)),
    {
        let f = channel_name("pwm", n, "_enable");
        self.read_u32(fs, f.as_str())
    }

    /// Set the PWM to a manual duty, scaled to the chip's raw range
    /// (`0..=pwm_max`).
    pub fn set_pwm_manual(&self, n: u32, pct: i64, pwm_max: u32) -> (r: Vec<FileWrite>)
        ensures
            r.deep_view() == manual_writes(n, pct as int, pwm_max),
    {
        let raw = register::raw_value(pct, pwm_max);
        let mut out: Vec<FileWrite> = Vec::new();
        out.push(
            FileWrite { file: channel_name("pwm", n, "_enable"), value: text::owned("1") },
        );
        out.push(
            FileWrite { file: channel_name("pwm", n, ""), value: number::u64_text(raw as u64) },
        );
        assert(out.deep_view() =~= manual_writes(n, pct as int, pwm_max));
        out
    }

    /// Let the chip's own auto-algorithm drive the PWM (`pwmN_enable = 2`).
    pub fn set_pwm_auto(&self, n: u32) -> (r: Vec<FileWrite>)
        ensures
            r.deep_view() == auto_writes(n),
    {
        let mut out: Vec<FileWrite> = Vec::new();
        out.push(
            FileWrite { file: channel_name("pwm", n, "_enable"), value: text::owned("2") },
        );
        assert(out.deep_view() =~= auto_writes(n));
        out
    }

    /// Drive the PWM at full speed: manual mode at the chip's maximum value.
    pub fn set_pwm_full(&self, n: u32, pwm_max: u32) -> (r: Vec<FileWrite>)
        ensures
            r.deep_view() == manual_writes(n, FULL as int, pwm_max),
    {
        self.set_pwm_manual(n, FULL, pwm_max)
    }

    /// Stop the PWM: a 0 % manual duty, which stops the fan on every driver
    /// (`pwmN_enable = 0` does not).
    pub fn set_pwm_off(&self, n: u32, pwm_max: u32) -> (r: Vec<FileWrite>)
        ensures
            r.deep_view() == manual_writes(n, 0, pwm_max),
    {
        self.set_pwm_manual(n, 0, pwm_max)
    }

    /// The current duty of the PWM, computed from its raw value and the
    /// optional `pwmN_min`/`pwmN_max` files (falling back to `0..=pwm_max`).
    pub fn pwm_percent(&self, fs: &Sysfs, n: u32, pwm_max: u32) -> (r: Option<i64>)
        ensures
            r is Some <==> duty_of(fs@, self@.dir, n, pwm_max) is Some,
            r matches Some(v) ==> duty_of(fs@, self@.dir, n, pwm_max) == Some(v as int),
    {
        let raw = match self.pwm_raw(fs, n) {
            Some(v) => v,
            None => {
                return None;
            },
        };
        let min = self.pwm_range_min(fs, n);
        let max = self.pwm_range_max(fs, n, pwm_max);
        register::percent(raw, min, max)
    }

    fn pwm_range_min(&self, fs: &Sysfs, n: u32) -> (r: u32)
        ensures
            r == (match u32_reading(fs@, self@.dir, channel_file("pwm"@, n, "_min"@)) {
                Some(v) => v,
                None => 0,
            }),
    {
        let f = channel_name("pwm", n, "_min");
        match self.read_u32(fs, f.as_str()) {
            Some(v) => v,
            None => 0,
        }
    }

    fn pwm_range_max(&self, fs: &Sysfs, n: u32, default: u32) -> (r: u32)
        ensures
            r == (match u32_reading(fs@, self@.dir, channel_file("pwm"@, n, "_max"@)) {
                Some(v) => v,
                None => default,
            }),
    {
        let f = channel_name("pwm", n, "_max");
        match self.read_u32(fs, f.as_str()) {
            Some(v) => v,
            None => default,
        }
    }

    /// The tachometer reading of channel `n`: `fanN_input`, or else
    /// `fanN_rpm`.
    pub fn tach(&self, fs: &Sysfs, n: u32) -> (r: Option<i64>)
        ensures
            r is Some <==> tach_of(fs@, self@.dir, n) is Some,
            r matches Some(v) ==> tach_of(fs@, self@.dir, n) == Some(v as int),
    {
        let input = channel_name("fan", n, "_input");
        match self.read_i64(fs, input.as_str()) {
            Some(v) => Some(v),
            None => {
                let rpm = channel_name("fan", n, "_rpm");
                self.read_i64(fs, rpm.as_str())
            },
        }
    }
}

// ---- writing --------------------------------------------------------------

/// The files of a directory after `value` was written to `name`.
pub open spec fn with_file(files: Seq<SysFileView>, name: Seq<char>, value: Seq<char>) -> Seq<
    SysFileView,
> {
    let f = file_place(files, name) as int;
    if f < files.len() {
        files.update(f, SysFileView { name, text: Some(value) })
    } else {
        files.push(SysFileView { name, text: Some(value) })
    }
}

/// Whether the file `name` in the directory `dir` takes a write: the
/// directory is there, and `name` is a readable file of it or not there yet.
pub open spec fn writable(fs: SysfsView, dir: Seq<char>, name: Seq<char>) -> bool {
    let files = files_in(fs, dir);
    let f = file_place(files, name) as int;
    dir_place(fs.dirs, dir) < fs.dirs.len() && (f < files.len() ==> files[f].text is Some)
}

/// The tree after `value` was written to `name` in `dir`.
pub open spec fn written(
    fs: SysfsView,
    dir: Seq<char>,
    name: Seq<char>,
    value: Seq<char>,
) -> SysfsView {
    let d = dir_place(fs.dirs, dir) as int;
    if writable(fs, dir, name) {
        SysfsView {
            base: fs.base,
            dirs: fs.dirs.update(
                d,
                SysDirView { files: with_file(fs.dirs[d].files, name, value), ..fs.dirs[d] },
            ),
        }
    } else {
        fs
    }
}

impl Hwmon {
    /// Write a value to a file of this chip in the picture `fs`, which then
    /// shows the tree after the write. `false`, and no change, where the file
    /// takes no write.
    pub fn write(&self, fs: &mut Sysfs, name: &str, val: &str) -> (r: bool)
        ensures
            r == writable(old(fs)@, self@.dir, name@),
            final(fs)@ == written(old(fs)@, self@.dir, name@, val@),
    {
        let ghost before = fs@;
        let d = find_dir(&fs.dirs, self.dir.as_str());
        if d == fs.dirs.len() {
            return false;
        }
        assert(before.dirs[d as int] == fs.dirs@[d as int]@);
        let f = find_file(&fs.dirs[d].files, name);
        let ghost files = before.dirs[d as int].files;
        if f == fs.dirs[d].files.len() {
            fs.dirs[d].files.push(SysFile { name: text::owned(name), text: Some(text::owned(val)) });
            assert(fs.dirs@[d as int].files.deep_view() =~= with_file(files, name@, val@));
        } else {
            assert(files[f as int] == fs.dirs@[d as int].files@[f as int]@);
            if fs.dirs[d].files[f].text.is_none() {
                return false;
            }
            let file = SysFile { name: text::owned(name), text: Some(text::owned(val)) };
            fs.dirs[d].files[f] = file;
            assert(fs.dirs@[d as int].files.deep_view() =~= with_file(files, name@, val@));
        }
        assert(fs@.dirs =~= written(before, self@.dir, name@, val@).dirs);
        true
    }
}

/// Writing changes the file written and no other: the file then holds the
/// value, and every other file of the tree what it held before.
pub proof fn law_write_then_read(
    fs: SysfsView,
    dir: Seq<char>,
    name: Seq<char>,
    value: Seq<char>,
    other_dir: Seq<char>,
    other: Seq<char>,
)
    requires
        writable(fs, dir, name),
    ensures
        content(written(fs, dir, name, value), dir, name) == Some(value),
        other_dir != dir || other != name ==> content(
            written(fs, dir, name, value),
            other_dir,
            other,
        ) == content(fs, other_dir, other),
{
    let after = written(fs, dir, name, value);
    let d = dir_place(fs.dirs, dir) as int;
    lemma_dir_place(fs.dirs, dir);
    lemma_dir_place(fs.dirs, other_dir);
    lemma_dir_place_is(after.dirs, dir, d);
    let o = dir_place(fs.dirs, other_dir) as int;
    lemma_dir_place_is(after.dirs, other_dir, o);
    let files = fs.dirs[d].files;
    let now = with_file(files, name, value);
    let f = file_place(files, name) as int;
    lemma_file_place(files, name);
    lemma_file_place_is(now, name, f);
    if other_dir == dir && other != name {
        lemma_file_place(files, other);
        let g = file_place(files, other) as int;
        if g < files.len() {
            lemma_file_place_is(now, other, g);
        } else {
            lemma_file_place_is(now, other, now.len() as int);
        }
    }
}

proof fn lemma_number_reads(n: u32)
    ensures
        number::parsed_int(text::trimmed(number::decimal(n as nat))) == Some(n as int),
{
    number::lemma_decimal_is_trimmed(n as nat);
    number::law_signed_round_trip(n as i64);
}

proof fn lemma_channel_files_differ(kind: Seq<char>, n: u32, a: Seq<char>, b: Seq<char>)
    requires
        a != b,
    ensures
        channel_file(kind, n, a) != channel_file(kind, n, b),
{
    let stem = kind + number::decimal(n as nat);
    let x = channel_file(kind, n, a);
    let y = channel_file(kind, n, b);
    assert(x.skip(stem.len() as int) =~= a);
    assert(y.skip(stem.len() as int) =~= b);
}

/// The range files of channel `n`, where they can be read, say `0..=pwm_max`.
pub open spec fn range_agrees(fs: SysfsView, dir: Seq<char>, n: u32, pwm_max: u32) -> bool {
    &&& u32_reading(fs, dir, channel_file("pwm"@, n, "_min"@)) matches Some(v) ==> v == 0
    &&& u32_reading(fs, dir, channel_file("pwm"@, n, "_max"@)) matches Some(v) ==> v == pwm_max
}

/// Once both writes of a manual duty are done, the channel reads as manual
/// (`pwmN_enable` is 1), its register as the scaled duty, and its duty as the
/// one that was set, to within half a register step (`50 / pwm_max` percent)
/// and a billionth of a percent.
///
/// The duty can be told where `pwm_max` is above 0 and the range files of the
/// channel, if there are any, agree with it.
pub proof fn law_manual_reads_back(
    fs: SysfsView,
    dir: Seq<char>,
    n: u32,
    pct: int,
    pwm_max: u32,
)
    requires
        writable(fs, dir, channel_file("pwm"@, n, "_enable"@)),
        writable(fs, dir, channel_file("pwm"@, n, ""@)),
    ensures
        ({
            let w = manual_writes(n, pct, pwm_max);
            let first = written(fs, dir, w[0].file, w[0].value);
            let after = written(first, dir, w[1].file, w[1].value);
            let set = quantity::clamped(pct, 0, FULL as int);
            &&& pwm_max > 0 && range_agrees(fs, dir, n, pwm_max) ==> (duty_of(
                after,
                dir,
                n,
                pwm_max,
            ) matches Some(p) && {
                &&& 0 <= p <= FULL
                &&& -(FULL + 2 * pwm_max) <= 2 * pwm_max * (p - set) <= FULL + 2 * pwm_max
            })
            &&& u32_reading(after, dir, channel_file("pwm"@, n, "_enable"@)) == Some(1u32)
            &&& u32_reading(after, dir, channel_file("pwm"@, n, ""@)) == Some(
                register::raw_duty(pct, pwm_max) as u32,
            )
        }),
{
    let w = manual_writes(n, pct, pwm_max);
    let enable = channel_file("pwm"@, n, "_enable"@);
    let reg = channel_file("pwm"@, n, ""@);
    let first = written(fs, dir, w[0].file, w[0].value);
    let after = written(first, dir, w[1].file, w[1].value);
    reveal_strlit("_enable");
    reveal_strlit("");
    reveal_strlit("1");
    lemma_channel_files_differ("pwm"@, n, "_enable"@, ""@);
    law_write_then_read(fs, dir, enable, w[0].value, dir, reg);
    lemma_still_writable(fs, dir, enable, w[0].value, reg);
    law_write_then_read(first, dir, reg, w[1].value, dir, enable);
    register::law_raw_duty(pct, pct, pwm_max);
    lemma_number_reads(register::raw_duty(pct, pwm_max) as u32);
    lemma_number_reads(1);
    assert("1"@ =~= number::decimal(1));

    let min = channel_file("pwm"@, n, "_min"@);
    let max = channel_file("pwm"@, n, "_max"@);
    reveal_strlit("_min");
    reveal_strlit("_max");
    assert("_min"@[1] == 'm' && "_max"@[1] == 'm' && "_enable"@[1] == 'e');
    lemma_channel_files_differ("pwm"@, n, "_min"@, "_enable"@);
    lemma_channel_files_differ("pwm"@, n, "_min"@, ""@);
    lemma_channel_files_differ("pwm"@, n, "_max"@, "_enable"@);
    lemma_channel_files_differ("pwm"@, n, "_max"@, ""@);
    law_write_then_read(fs, dir, enable, w[0].value, dir, min);
    law_write_then_read(first, dir, reg, w[1].value, dir, min);
    law_write_then_read(fs, dir, enable, w[0].value, dir, max);
    law_write_then_read(first, dir, reg, w[1].value, dir, max);

    if pwm_max > 0 {
        register::law_duty_reads_back(pct, pwm_max);
    }
}

proof fn lemma_still_writable(
    fs: SysfsView,
    dir: Seq<char>,
    name: Seq<char>,
    value: Seq<char>,
    other: Seq<char>,
)
    requires
        writable(fs, dir, name),
        writable(fs, dir, other),
    ensures
        writable(written(fs, dir, name, value), dir, other),
{
    let after = written(fs, dir, name, value);
    let d = dir_place(fs.dirs, dir) as int;
    lemma_dir_place(fs.dirs, dir);
    lemma_dir_place_is(after.dirs, dir, d);
    let files = fs.dirs[d].files;
    let now = with_file(files, name, value);
    lemma_file_place(files, name);
    lemma_file_place(files, other);
    let g = file_place(files, other) as int;
    if g < files.len() {
        lemma_file_place_is(now, other, g);
    } else if other == name {
        lemma_file_place_is(now, other, g);
    } else {
        lemma_file_place_is(now, other, now.len() as int);
    }
}

/// Whether a list of numbers is increasing, with none twice.
pub open spec fn increasing(s: Seq<u32>) -> bool {
    forall|i: int, j: int| 0 <= i < j < s.len() ==> s[i] < s[j]
}

proof fn lemma_with_number(s: Seq<u32>, x: u32)
    requires
        increasing(s),
    ensures
        increasing(with_number(s, x)),
        forall|y: u32| #[trigger] with_number(s, x).contains(y) <==> s.contains(y) || y == x,
    decreases s.len(),
{
    let r = with_number(s, x);
    if s.len() == 0 || s.last() < x {
        assert(r.last() == x);
        assert forall|y: u32| #[trigger] r.contains(y) <==> s.contains(y) || y == x by {
            if s.contains(y) {
                let i = choose|i: int| 0 <= i < s.len() && s[i] == y;
                assert(r[i] == y);
            }
        }
    } else if s.last() > x {
        let t = s.drop_last();
        let u = with_number(t, x);
        lemma_with_number(t, x);
        assert(r.last() == s.last());
        assert forall|y: u32| #[trigger] r.contains(y) <==> s.contains(y) || y == x by {
            assert(u.contains(y) <==> t.contains(y) || y == x);
            if r.contains(y) {
                let i = choose|i: int| 0 <= i < r.len() && r[i] == y;
                if i < u.len() {
                    assert(u[i] == y);
                    if t.contains(y) {
                        let j = choose|j: int| 0 <= j < t.len() && t[j] == y;
                        assert(s[j] == y);
                    }
                }
            }
            if u.contains(y) {
                let i = choose|i: int| 0 <= i < u.len() && u[i] == y;
                assert(r[i] == y);
            }
            if s.contains(y) {
                let i = choose|i: int| 0 <= i < s.len() && s[i] == y;
                if i < t.len() {
                    assert(t[i] == y);
                }
            }
        }
        assert forall|i: int, j: int| 0 <= i < j < r.len() implies r[i] < r[j] by {
            if j == u.len() {
                assert(u.contains(u[i]));
                if u[i] != x {
                    let k = choose|k: int| 0 <= k < t.len() && t[k] == u[i];
                    assert(s[k] < s[s.len() - 1]);
                }
            }
        }
    }
}

/// The channel numbers of a chip come in increasing order, none twice, and
/// are those its file names give.
pub proof fn law_numbers(files: Seq<SysFileView>, prefix: Seq<char>)
    ensures
        increasing(numbers_among(files, prefix)),
        forall|n: u32| #[trigger]
            numbers_among(files, prefix).contains(n) <==> exists|i: int|
                0 <= i < files.len() && #[trigger] number_in(files[i].name, prefix) == Some(
                    n as nat,
                ),
    decreases files.len(),
{
    if files.len() > 0 {
        let t = files.drop_last();
        law_numbers(t, prefix);
        let r = numbers_among(files, prefix);
        let before = numbers_among(t, prefix);
        match number_in(files.last().name, prefix) {
            Some(x) => {
                lemma_with_number(before, x as u32);
            },
            None => {},
        }
        assert forall|n: u32| #[trigger] r.contains(n) <==> exists|i: int|
            0 <= i < files.len() && #[trigger] number_in(files[i].name, prefix) == Some(n as nat) by {
            assert(before.contains(n) <==> exists|i: int|
                0 <= i < t.len() && #[trigger] number_in(t[i].name, prefix) == Some(n as nat));
            if r.contains(n) {
                if before.contains(n) {
                    let i = choose|i: int|
                        0 <= i < t.len() && #[trigger] number_in(t[i].name, prefix) == Some(n as nat);
                    assert(number_in(files[i].name, prefix) == Some(n as nat));
                } else {
                    assert(number_in(files[files.len() - 1].name, prefix) == Some(n as nat));
                }
            }
            if exists|i: int|
                0 <= i < files.len() && #[trigger] number_in(files[i].name, prefix) == Some(n as nat) {
                let i = choose|i: int|
                    0 <= i < files.len() && #[trigger] number_in(files[i].name, prefix) == Some(
                        n as nat,
                    );
                if i < t.len() {
                    assert(number_in(t[i].name, prefix) == Some(n as nat));
                }
            }
        }
    }
}

// ---- what the files mean --------------------------------------------------

/// A duty is written in two steps: `pwmN_enable` is set to 1 first, and then
/// `pwmN` to the register value of the duty. The chip's own algorithm takes
/// over with `pwmN_enable` at 2 alone.
pub proof fn law_writes(n: u32, pct: int, pwm_max: u32)
    ensures
        ({
            let w = manual_writes(n, pct, pwm_max);
            let d = number::decimal(n as nat);
            &&& w.len() == 2
            &&& w[0].file == "pwm"@ + d + "_enable"@ && w[0].value == "1"@
            &&& w[1].file == "pwm"@ + d
            &&& w[1].value == number::decimal(register::raw_duty(pct, pwm_max) as nat)
            &&& 0 <= register::raw_duty(pct, pwm_max) <= pwm_max
        }),
        auto_writes(n) == seq![
            FileWriteView {
                file: "pwm"@ + number::decimal(n as nat) + "_enable"@,
                value: "2"@,
            },
        ],
{
    register::law_raw_duty(pct, pct, pwm_max);
    reveal_strlit("");
    assert(channel_file("pwm"@, n, ""@) =~= "pwm"@ + number::decimal(n as nat));
}

/// A file is read from the first directory of the chip's name, and there from
/// the first file of that name.
pub proof fn law_file_is_read(
    fs: SysfsView,
    dir: Seq<char>,
    name: Seq<char>,
    d: int,
    f: int,
)
    requires
        0 <= d < fs.dirs.len(),
        fs.dirs[d].name == dir,
        forall|i: int| 0 <= i < d ==> (#[trigger] fs.dirs[i]).name != dir,
        0 <= f < fs.dirs[d].files.len(),
        fs.dirs[d].files[f].name == name,
        forall|i: int| 0 <= i < f ==> (#[trigger] fs.dirs[d].files[i]).name != name,
    ensures
        content(fs, dir, name) == fs.dirs[d].files[f].text,
{
    lemma_dir_place_is(fs.dirs, dir, d);
    lemma_file_place_is(fs.dirs[d].files, name, f);
}

/// A number in a file is read with the blanks around it dropped: the kernel
/// ends it with a newline. What is no number reads as nothing, and neither
/// does a file that is not there.
pub proof fn law_number_is_read(fs: SysfsView, dir: Seq<char>, name: Seq<char>, v: i64)
    ensures
        content(fs, dir, name) == Some(number::signed_decimal(v as int) + seq!['\n'])
            ==> int_reading(fs, dir, name) == Some(v as int) && (0 <= v <= u32::MAX ==> u32_reading(
            fs,
            dir,
            name,
        ) == Some(v as u32)) && (!(0 <= v <= u32::MAX) ==> u32_reading(fs, dir, name) is None),
        content(fs, dir, name) is None ==> reading(fs, dir, name) is None && int_reading(
            fs,
            dir,
            name,
        ) is None && u32_reading(fs, dir, name) is None,
        content(fs, dir, name) matches Some(t) ==> reading(fs, dir, name) == Some(
            text::trimmed(t),
        ),
{
    let s = number::signed_decimal(v as int);
    number::law_signed_round_trip(v);
    if v < 0 {
        number::lemma_decimal((-v) as nat);
        assert(text::digit(number::decimal((-v) as nat).last()));
        assert(s.last() == number::decimal((-v) as nat).last());
    } else {
        number::lemma_decimal(v as nat);
        assert(text::digit(s[0]) && text::digit(s.last()));
    }
    text::law_blanks_are_trimmed(Seq::empty(), s, seq!['\n']);
    assert(Seq::<char>::empty() + s + seq!['\n'] =~= s + seq!['\n']);
}

/// The duty of a channel is told by its register within its own range: from
/// `pwmN_min`, or 0, to `pwmN_max`, or the maximum given. Its speed is that of
/// `fanN_input`, or else of `fanN_rpm`.
pub proof fn law_channel_is_read(fs: SysfsView, dir: Seq<char>, n: u32, pwm_max: u32)
    ensures
        ({
            let d = number::decimal(n as nat);
            let raw = u32_reading(fs, dir, "pwm"@ + d);
            let lo = u32_reading(fs, dir, "pwm"@ + d + "_min"@);
            let hi = u32_reading(fs, dir, "pwm"@ + d + "_max"@);
            let min = if lo is Some {
                lo->0
            } else {
                0
            };
            let max = if hi is Some {
                hi->0
            } else {
                pwm_max
            };
            let input = int_reading(fs, dir, "fan"@ + d + "_input"@);
            let rpm = int_reading(fs, dir, "fan"@ + d + "_rpm"@);
            &&& raw is None ==> duty_of(fs, dir, n, pwm_max) is None
            &&& raw is Some ==> duty_of(fs, dir, n, pwm_max) == register::percent_of(
                raw->0,
                min,
                max,
            )
            &&& input is Some ==> tach_of(fs, dir, n) == input
            &&& input is None ==> tach_of(fs, dir, n) == rpm
        }),
{
    reveal_strlit("");
    assert(channel_file("pwm"@, n, ""@) =~= "pwm"@ + number::decimal(n as nat));
}

// ---- which chips there are ------------------------------------------------

/// Just the directories named `hwmon...` are chips: each of them is found, and
/// nothing else is.
pub proof fn law_chips_are_found(fs: SysfsView)
    ensures
        forall|i: int|
            0 <= i < fs.dirs.len() && fs.dirs[i].is_dir && fs.dirs[i].name.len() >= 5
                && fs.dirs[i].name.take(5) == "hwmon"@ ==> chips_of(fs).contains(
                chip_in(fs.base, #[trigger] fs.dirs[i]),
            ),
        forall|c: HwmonView| #[trigger]
            chips_of(fs).contains(c) ==> exists|i: int|
                0 <= i < fs.dirs.len() && (#[trigger] fs.dirs[i]).is_dir && fs.dirs[i].name.len()
                    >= 5 && fs.dirs[i].name.take(5) == "hwmon"@ && c == chip_in(
                    fs.base,
                    fs.dirs[i],
                ),
{
    broadcast use vstd::seq_lib::group_to_multiset_ensures;

    reveal_strlit("hwmon");
    let found = chips_among(fs.base, fs.dirs);
    let r = chips_of(fs);
    lemma_lex_total();
    order::law_sorted_by(found, by_dir());
    lemma_chips_among(fs.base, fs.dirs);
    assert forall|c: HwmonView| r.contains(c) <==> found.contains(c) by {
        assert(r.to_multiset().count(c) == found.to_multiset().count(c));
    }
    assert forall|i: int|
        0 <= i < fs.dirs.len() && fs.dirs[i].is_dir && fs.dirs[i].name.len() >= 5
            && fs.dirs[i].name.take(5) == "hwmon"@ implies chips_of(fs).contains(
        chip_in(fs.base, #[trigger] fs.dirs[i]),
    ) by {
        assert(is_chip(fs.dirs[i]));
        assert(found.contains(chip_in(fs.base, fs.dirs[i])));
    }
    assert forall|c: HwmonView| #[trigger] chips_of(fs).contains(c) implies exists|i: int|
        0 <= i < fs.dirs.len() && (#[trigger] fs.dirs[i]).is_dir && fs.dirs[i].name.len() >= 5
            && fs.dirs[i].name.take(5) == "hwmon"@ && c == chip_in(fs.base, fs.dirs[i]) by {
        assert(found.contains(c));
        let i = choose|i: int|
            0 <= i < fs.dirs.len() && is_chip(#[trigger] fs.dirs[i]) && c == chip_in(
                fs.base,
                fs.dirs[i],
            );
        assert(fs.dirs[i].is_dir);
    }
}

proof fn lemma_chips_among(base: Seq<char>, dirs: Seq<SysDirView>)
    ensures
        forall|i: int|
            0 <= i < dirs.len() && is_chip(#[trigger] dirs[i]) ==> chips_among(base, dirs).contains(
                chip_in(base, dirs[i]),
            ),
        forall|c: HwmonView| #[trigger]
            chips_among(base, dirs).contains(c) ==> exists|i: int|
                0 <= i < dirs.len() && is_chip(#[trigger] dirs[i]) && c == chip_in(base, dirs[i]),
    decreases dirs.len(),
{
    if dirs.len() > 0 {
        let t = dirs.drop_last();
        let before = chips_among(base, t);
        let now = chips_among(base, dirs);
        lemma_chips_among(base, t);
        assert forall|i: int| 0 <= i < dirs.len() && is_chip(#[trigger] dirs[i]) implies now.contains(
            chip_in(base, dirs[i]),
        ) by {
            let c = chip_in(base, dirs[i]);
            if i < t.len() {
                assert(is_chip(t[i]));
                assert(before.contains(c));
                let k = choose|k: int| 0 <= k < before.len() && before[k] == c;
                assert(now[k] == c);
            } else {
                assert(now[now.len() - 1] == c);
            }
        }
        assert forall|c: HwmonView| #[trigger] now.contains(c) implies exists|i: int|
            0 <= i < dirs.len() && is_chip(#[trigger] dirs[i]) && c == chip_in(base, dirs[i]) by {
            let k = choose|k: int| 0 <= k < now.len() && now[k] == c;
            if k < before.len() {
                assert(before[k] == c);
                assert(before.contains(c));
                let i = choose|i: int|
                    0 <= i < t.len() && is_chip(#[trigger] t[i]) && c == chip_in(base, t[i]);
                assert(is_chip(dirs[i]));
            } else {
                assert(is_chip(dirs[dirs.len() - 1]));
            }
        }
    }
}

/// A chip goes by what its `name` file holds, without the blanks around it;
/// its directory and path are those of the tree.
pub proof fn law_chip_is_named(base: Seq<char>, d: SysDirView, f: int)
    requires
        0 <= f < d.files.len(),
        d.files[f].name == "name"@,
        forall|i: int| 0 <= i < f ==> (#[trigger] d.files[i]).name != "name"@,
        d.files[f].text is Some,
    ensures
        chip_in(base, d).name == text::trimmed(d.files[f].text->0),
        chip_in(base, d).dir == d.name,
        base.len() > 0 && base[base.len() - 1] != '/' ==> chip_in(base, d).path == base + "/"@
            + d.name,
{
    lemma_file_place_is(d.files, "name"@, f);
}

/// A chip without a readable `name` file goes by the number of its directory.
pub proof fn law_nameless_chip(base: Seq<char>, d: SysDirView, rest: Seq<char>)
    requires
        forall|i: int| 0 <= i < d.files.len() ==> (#[trigger] d.files[i]).name != "name"@,
        d.name == "hwmon"@ + rest,
        rest.len() < 5 || rest.take(5) != "hwmon"@,
    ensures
        chip_in(base, d).name == rest,
{
    reveal_strlit("hwmon");
    lemma_file_place_is(d.files, "name"@, d.files.len() as int);
    assert(d.name.take(5) =~= "hwmon"@);
    assert(d.name.skip(5) =~= rest);
    reveal_with_fuel(text::without_leading, 2);
}

/// A reference that just one chip has as its name is that chip; any other is
/// the first chip in the directory of that name, or no chip.
pub proof fn law_reference_resolves(chips: Seq<HwmonView>, r: Seq<char>, i: int)
    requires
        0 <= i < chips.len(),
    ensures
        chips[i].name == r && (forall|j: int|
            0 <= j < chips.len() && j != i ==> (#[trigger] chips[j]).name != r) ==> resolved(
            chips,
            r,
        ) == Some(chips[i]),
        (forall|j: int| 0 <= j < chips.len() ==> (#[trigger] chips[j]).name != r) && chips[i].dir
            == r && (forall|j: int| 0 <= j < i ==> (#[trigger] chips[j]).dir != r) ==> resolved(
            chips,
            r,
        ) == Some(chips[i]),
        forall|k: int|
            i < k < chips.len() && chips[i].name == r && (#[trigger] chips[k]).name == r && chips[i].dir
                == r && (forall|j: int| 0 <= j < i ==> (#[trigger] chips[j]).dir != r) ==> resolved(
                chips,
                r,
            ) == Some(chips[i]),
        (forall|j: int|
            0 <= j < chips.len() ==> (#[trigger] chips[j]).name != r && chips[j].dir != r)
            ==> resolved(chips, r) is None,
{
    lemma_name_count(chips, r);
    lemma_chip_place(chips, |c: HwmonView| c.name == r);
    lemma_chip_place(chips, |c: HwmonView| c.dir == r);
    if chips[i].name == r && (forall|j: int|
        0 <= j < chips.len() && j != i ==> (#[trigger] chips[j]).name != r) {
        lemma_one_named(chips, r, i);
        lemma_chip_place_is(chips, |c: HwmonView| c.name == r, i);
    }
    if chips[i].dir == r && (forall|j: int| 0 <= j < i ==> (#[trigger] chips[j]).dir != r) {
        lemma_chip_place_is(chips, |c: HwmonView| c.dir == r, i);
    }
    if forall|j: int| 0 <= j < chips.len() ==> (#[trigger] chips[j]).name != r && chips[j].dir
        != r {
        let d = chip_place(chips, |c: HwmonView| c.dir == r) as int;
        if d < chips.len() {
            assert(chips[d].dir == r);
        }
    }
}

proof fn lemma_one_named(chips: Seq<HwmonView>, r: Seq<char>, i: int)
    requires
        0 <= i < chips.len(),
        chips[i].name == r,
        forall|j: int| 0 <= j < chips.len() && j != i ==> (#[trigger] chips[j]).name != r,
    ensures
        name_count(chips, r) == 1,
    decreases chips.len(),
{
    let t = chips.drop_last();
    assert forall|j: int| 0 <= j < t.len() && j != i implies (#[trigger] t[j]).name != r by {
        assert(chips[j].name != r);
    }
    if i == chips.len() - 1 {
        lemma_name_count(t, r);
    } else {
        lemma_one_named(t, r, i);
        assert(chips[chips.len() - 1].name != r);
    }
}

/// Chips come in the order of their directories' names, character by
/// character: at the first place where two names differ the smaller character
/// comes first, and a name comes before those it begins.
pub proof fn law_chips_are_ordered(
    fs: SysfsView,
    i: int,
    j: int,
    p: Seq<char>,
    x: char,
    y: char,
    s: Seq<char>,
    t: Seq<char>,
)
    ensures
        0 <= i < j < chips_of(fs).len() ==> lex_le(chips_of(fs)[i].dir, chips_of(fs)[j].dir),
        x != y ==> (lex_le(p + seq![x] + s, p + seq![y] + t) <==> x < y),
        lex_le(p, p + t),
        !lex_le(p + seq![x] + s, p),
    decreases p.len(),
{
    lemma_lex_total();
    order::law_sorted_by(chips_among(fs.base, fs.dirs), by_dir());
    let r = chips_of(fs);
    if 0 <= i < j < r.len() {
        assert(by_dir()(r[i], r[j]));
    }
    lemma_lex(p, x, y, s, t);
}

proof fn lemma_lex(p: Seq<char>, x: char, y: char, s: Seq<char>, t: Seq<char>)
    ensures
        x != y ==> (lex_le(p + seq![x] + s, p + seq![y] + t) <==> x < y),
        lex_le(p, p + t),
        !lex_le(p + seq![x] + s, p),
    decreases p.len(),
{
    if p.len() > 0 {
        let q = p.skip(1);
        lemma_lex(q, x, y, s, t);
        assert((p + seq![x] + s).skip(1) =~= q + seq![x] + s);
        assert((p + seq![y] + t).skip(1) =~= q + seq![y] + t);
        assert((p + t).skip(1) =~= q + t);
        assert((p + seq![x] + s)[0] == p[0]);
        assert((p + seq![y] + t)[0] == p[0]);
    } else {
        assert((p + seq![x] + s)[0] == x);
        assert((p + seq![y] + t)[0] == y);
    }
}

proof fn lemma_lex_either(a: Seq<char>, b: Seq<char>)
    ensures
        lex_le(a, b) || lex_le(b, a),
    decreases a.len(),
{
    if a.len() > 0 && b.len() > 0 && a[0] == b[0] {
        lemma_lex_either(a.skip(1), b.skip(1));
    }
}

proof fn lemma_lex_chain(a: Seq<char>, b: Seq<char>, c: Seq<char>)
    requires
        lex_le(a, b),
        lex_le(b, c),
    ensures
        lex_le(a, c),
    decreases a.len(),
{
    if a.len() > 0 && b.len() > 0 && c.len() > 0 && a[0] == b[0] && b[0] == c[0] {
        lemma_lex_chain(a.skip(1), b.skip(1), c.skip(1));
    }
}

proof fn lemma_lex_total()
    ensures
        order::total_order(by_dir()),
{
    let le = by_dir();
    assert forall|a: HwmonView, b: HwmonView| #[trigger] le(a, b) || le(b, a) by {
        lemma_lex_either(a.dir, b.dir);
    }
    assert forall|a: HwmonView, b: HwmonView, c: HwmonView| #[trigger] le(a, b) && #[trigger] le(
        b,
        c,
    ) implies le(a, c) by {
        lemma_lex_chain(a.dir, b.dir, c.dir);
    }
}

/// A file name gives the number behind its prefix, with nothing or an
/// underscore after it; a name without the prefix, or with anything else after
/// the number, gives none.
pub proof fn law_file_names_give_numbers(prefix: Seq<char>, n: u32, rest: Seq<char>)
    ensures
        rest.len() == 0 || rest[0] == '_' ==> number_in(
            prefix + number::decimal(n as nat) + rest,
            prefix,
        ) == Some(n as nat),
        rest.len() > 0 && rest[0] != '_' && !('0' <= rest[0] && rest[0] <= '9') ==> number_in(
            prefix + number::decimal(n as nat) + rest,
            prefix,
        ) is None && number_in(prefix + rest, prefix) is None,
        forall|s: Seq<char>| #[trigger]
            number_in(s, prefix) is Some ==> s.len() > prefix.len() && s.take(prefix.len() as int)
                == prefix,
{
    let d = number::decimal(n as nat);
    let s = prefix + d + rest;
    number::lemma_decimal(n as nat);
    assert(s.take(prefix.len() as int) =~= prefix);
    assert(s.skip(prefix.len() as int) =~= d + rest);
    assert((prefix + rest).take(prefix.len() as int) =~= prefix);
    assert((prefix + rest).skip(prefix.len() as int) =~= rest);
    if rest.len() == 0 || !('0' <= rest[0] && rest[0] <= '9') {
        lemma_digits_lead(d, rest);
        assert((d + rest).take(d.len() as int) =~= d);
    }
    assert forall|s: Seq<char>| #[trigger] number_in(s, prefix) is Some implies s.len()
        > prefix.len() && s.take(prefix.len() as int) == prefix by {
        let r = s.skip(prefix.len() as int);
        lemma_leading_digits(r);
    }
}

proof fn lemma_digits_lead(d: Seq<char>, rest: Seq<char>)
    requires
        number::all_digits(d),
        rest.len() > 0 ==> !text::digit(rest[0]),
    ensures
        leading_digits(d + rest) == d.len(),
        leading_digits(rest) == 0,
    decreases d.len(),
{
    if d.len() == 0 {
        assert(d + rest =~= rest);
    } else {
        assert(text::digit(d[0]));
        assert((d + rest).skip(1) =~= d.skip(1) + rest);
        assert(number::all_digits(d.skip(1)));
        lemma_digits_lead(d.skip(1), rest);
    }
}

/// A write is taken where the chip's directory is there and the file can be
/// read or is not there yet, and then only; where it is not taken the tree
/// stays as it is.
pub proof fn law_which_writes_are_taken(
    fs: SysfsView,
    dir: Seq<char>,
    name: Seq<char>,
    value: Seq<char>,
    d: int,
)
    ensures
        (forall|i: int| 0 <= i < fs.dirs.len() ==> (#[trigger] fs.dirs[i]).name != dir)
            ==> !writable(fs, dir, name),
        0 <= d < fs.dirs.len() && fs.dirs[d].name == dir && (forall|i: int|
            0 <= i < d ==> (#[trigger] fs.dirs[i]).name != dir) ==> (writable(fs, dir, name) <==> (
        forall|i: int|
            0 <= i < fs.dirs[d].files.len() ==> (#[trigger] fs.dirs[d].files[i]).name != name)
            || content(fs, dir, name) is Some),
        !writable(fs, dir, name) ==> written(fs, dir, name, value) == fs,
{
    lemma_dir_place(fs.dirs, dir);
    let p = dir_place(fs.dirs, dir) as int;
    if p < fs.dirs.len() {
        assert(fs.dirs[p].name == dir);
    }
    if 0 <= d < fs.dirs.len() && fs.dirs[d].name == dir && (forall|i: int|
        0 <= i < d ==> (#[trigger] fs.dirs[i]).name != dir) {
        lemma_dir_place_is(fs.dirs, dir, d);
        lemma_file_place(fs.dirs[d].files, name);
        let f = file_place(fs.dirs[d].files, name) as int;
        if f < fs.dirs[d].files.len() {
            assert(fs.dirs[d].files[f].name == name);
        }
    }
}

} // verus!
