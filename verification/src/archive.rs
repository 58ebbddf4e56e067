//! The archive manager: packs one save file into an uncompressed
//! single-entry container and plans the extraction of a container, keeping
//! only save-like entries and flattening their names. Flattening discards
//! every path component of an entry name, which guards against path
//! traversal from crafted containers.

use vstd::prelude::*;
use vstd::string::{StrSliceExecFns, StringExecFns};

use crate::errors::SaveError;
use crate::sync::SaveManager;
use crate::text::{
    base_name, base_name_of, contains_sub, ends_with, lemma_last_before_after, str_contains,
    str_ends_with,
};

verus! {

/// One entry read from a container: its stored name, whether it is a
/// directory entry, and its bytes.
#[derive(Debug)]
pub struct ArchiveEntry {
    pub name: String,
    pub is_dir: bool,
    pub data: Vec<u8>,
}

impl View for ArchiveEntry {
    type V = (Seq<char>, bool, Seq<u8>);

    open spec fn view(&self) -> (Seq<char>, bool, Seq<u8>) {
        (self.name@, self.is_dir, self.data@)
    }
}

/// One planned extraction: the flattened output path and the bytes to
/// write there.
#[derive(Debug)]
pub struct ExtractedFile {
    pub path: String,
    pub data: Vec<u8>,
}

impl View for ExtractedFile {
    type V = (Seq<char>, Seq<u8>);

    open spec fn view(&self) -> (Seq<char>, Seq<u8>) {
        (self.path@, self.data@)
    }
}

/// The entries a container's bytes hold, in container order; fixed by the
/// bytes alone.
pub uninterp spec fn archive_entries_of(container: Seq<u8>) -> Seq<(Seq<char>, bool, Seq<u8>)>;

/// The bytes of the uncompressed single-entry container that holds `data`
/// under `name`; fixed by the arguments alone.
pub uninterp spec fn single_entry_container_of(name: Seq<char>, data: Seq<u8>) -> Seq<u8>;

/// Whether a byte sequence parses as a container of stored entries — the
/// one shape this crate reads; fixed by the bytes alone.
pub uninterp spec fn container_readable(container: Seq<u8>) -> bool;

/// Relies on zip::ZipArchive (`new`, `len`, `by_index_raw`) and
/// zip::read::ZipFile (`name`, `is_dir`, `compression`, `read_to_end`):
/// reads every entry of the container, in order, into plain values. Only
/// stored (uncompressed) entries are supported — the one container shape
/// this crate handles — so a compressed entry makes the whole container
/// unreadable. The outcome is fixed by the container's bytes alone, and a
/// container this crate wrote is always readable.
#[verifier::external_body]
fn read_container_entries(container: &[u8]) -> (r: Option<Vec<ArchiveEntry>>)
    ensures
        r is Some <==> container_readable(container@),
        r matches Some(v) ==> v@.map_values(|e: ArchiveEntry| e@) == archive_entries_of(
            container@,
        ),
        forall|n: Seq<char>, d: Seq<u8>|
            container@ == #[trigger] single_entry_container_of(n, d) ==> r is Some,
{
    let mut archive = zip::ZipArchive::new(std::io::Cursor::new(container)).ok()?;
    let mut out = Vec::new();
    for i in 0..archive.len() {
        let mut f = archive.by_index_raw(i).ok()?;
        if f.compression() != zip::CompressionMethod::Stored {
            return None;
        }
        let name = f.name().to_string();
        let is_dir = f.is_dir();
        let mut data = Vec::new();
        std::io::Read::read_to_end(&mut f, &mut data).ok()?;
        out.push(ArchiveEntry { name, is_dir, data });
    }
    Some(out)
}

/// Relies on zip::ZipWriter (`new`, `start_file`, `write_all`, `finish`)
/// with stored (uncompressed) entries: builds the single-entry container;
/// reading that container back yields exactly the one file entry. The
/// bounds mirror the writer: an entry name longer than the format's 16-bit
/// name-length field would be written truncated without an error, and data
/// beyond the 32-bit size field is refused by the writer; names ending in
/// a separator would read back as directory entries. Within those bounds,
/// writing to an in-memory buffer cannot fail.
#[verifier::external_body]
fn write_single_entry_container(name: &str, data: &[u8]) -> (r: Option<Vec<u8>>)
    requires
        name@.len() == 0 || (name@.last() != '/' && name@.last() != '\\'),
        vstd::utf8::encode_utf8(name@).len() <= 0xFFFF,
        data@.len() <= 0xFFFF_FFFF,
    ensures
        r is Some,
        r matches Some(c) ==> c@ == single_entry_container_of(name@, data@),
        r matches Some(c) ==> archive_entries_of(c@) == seq![(name@, false, data@)],
{
    let mut writer = zip::ZipWriter::new(std::io::Cursor::new(Vec::new()));
    let options = zip::write::FileOptions::default().compression_method(
        zip::CompressionMethod::Stored,
    );
    writer.start_file(name, options).ok()?;
    std::io::Write::write_all(&mut writer, data).ok()?;
    Some(writer.finish().ok()?.into_inner())
}

/// An entry is kept when it is a file entry whose name contains `user` or
/// ends with the `.dat` save extension.
pub open spec fn keep_entry_spec(e: (Seq<char>, bool, Seq<u8>)) -> bool {
    !e.1 && (contains_sub(e.0, "user"@) || ends_with(e.0, ".dat"@))
}

/// The extraction filter over one entry.
fn should_extract_entry(e: &ArchiveEntry) -> (r: bool)
    ensures
        r == keep_entry_spec(e@),
{
    !e.is_dir && (str_contains(e.name.as_str(), "user") || str_ends_with(e.name.as_str(), ".dat"))
}

/// Where a kept entry is written: the output directory, a separator unless
/// one is already there, and the flattened name.
pub open spec fn joined_path_spec(dir: Seq<char>, name: Seq<char>) -> Seq<char> {
    if dir.len() == 0 || dir.last() == '/' {
        dir + name
    } else {
        dir + seq!['/'] + name
    }
}

/// Join an output directory and a file name.
fn join_path(dir: &str, name: &str) -> (r: String)
    ensures
        r@ == joined_path_spec(dir@, name@),
{
    let dir_len = dir.unicode_len();
    let base = String::from_str(dir);
    if dir_len == 0 || dir.get_char(dir_len - 1) == '/' {
        base.concat(name)
    } else {
        proof {
            reveal_strlit("/");
            assert("/"@ =~= seq!['/']);
        }
        let with_sep = base.concat("/");
        with_sep.concat(name)
    }
}

/// The extraction plan for `entries` into `dir`: the kept entries, in
/// container order, each under its flattened output path; an entry without
/// a usable base name is passed over.
pub open spec fn extract_plan_spec(entries: Seq<(Seq<char>, bool, Seq<u8>)>, dir: Seq<char>) -> Seq<
    (Seq<char>, Seq<u8>),
>
    decreases entries.len(),
{
    if entries.len() == 0 {
        Seq::empty()
    } else {
        let e = entries.first();
        let rest = extract_plan_spec(entries.drop_first(), dir);
        if keep_entry_spec(e) {
            match base_name_of(e.0) {
                Some(b) => seq![(joined_path_spec(dir, b), e.2)] + rest,
                None => rest,
            }
        } else {
            rest
        }
    }
}

impl SaveManager {
    /// Pack one save file's bytes into an uncompressed single-entry
    /// container whose entry name is the source file's base name. The
    /// bounds are the container format's: the name must fit its 16-bit
    /// length field and the data its 32-bit size field.
    pub fn create_backup(&self, save_file: &str, save_data: &[u8]) -> (r: Result<
        Vec<u8>,
        SaveError,
    >)
        requires
            crate::text::base_name_of(save_file@) is Some,
            vstd::utf8::encode_utf8(crate::text::base_name_of(save_file@).unwrap()).len()
                <= 0xFFFF,
            save_data@.len() <= 0xFFFF_FFFF,
        ensures
            r is Ok,
            r matches Ok(c) ==> c@ == single_entry_container_of(
                crate::text::base_name_of(save_file@).unwrap(),
                save_data@,
            ),
            r matches Ok(c) ==> archive_entries_of(c@) == seq![
                (crate::text::base_name_of(save_file@).unwrap(), false, save_data@),
            ],
    {
        let name = match base_name(save_file) {
            Some(n) => n,
            None => {
                return Err(SaveError::IoError);
            },
        };
        proof {
            lemma_last_before_after(save_file@, '/', save_file@.len() as int);
            lemma_last_before_after(save_file@, '\\', save_file@.len() as int);
            crate::text::lemma_last_before_bounds(save_file@, '/', save_file@.len() as int);
            crate::text::lemma_last_before_bounds(save_file@, '\\', save_file@.len() as int);
            let cut = crate::text::last_separator(save_file@);
            let nm = save_file@.subrange(cut + 1, save_file@.len() as int);
            assert(name@ == nm);
            assert(nm.last() == save_file@[save_file@.len() - 1]);
            assert(nm.last() != '/');
            assert(nm.last() != '\\');
        }
        match write_single_entry_container(name.as_str(), save_data) {
            Some(c) => Ok(c),
            None => Err(SaveError::IoError),
        }
    }

    /// Plan the extraction of a container: keep the entries the filter
    /// admits, in container order, each flattened to its base name under
    /// `output_dir`. Succeeds exactly on readable containers, containers
    /// this crate wrote among them.
    pub fn extract_backup(&self, container: &[u8], output_dir: &str) -> (r: Result<
        Vec<ExtractedFile>,
        SaveError,
    >)
        ensures
            r is Ok <==> container_readable(container@),
            r matches Ok(v) ==> v@.map_values(|f: ExtractedFile| f@) == extract_plan_spec(
                archive_entries_of(container@),
                output_dir@,
            ),
            r matches Err(e) ==> e == SaveError::IoError,
            forall|n: Seq<char>, d: Seq<u8>|
                container@ == #[trigger] single_entry_container_of(n, d) ==> r is Ok,
    {
        let entries = match read_container_entries(container) {
            Some(v) => v,
            None => {
                return Err(SaveError::IoError);
            },
        };
        let ghost all = entries@.map_values(|e: ArchiveEntry| e@);
        let mut out: Vec<ExtractedFile> = Vec::new();
        proof {
            assert(all.skip(0) =~= all);
            assert(out@.map_values(|f: ExtractedFile| f@) =~= Seq::<(Seq<char>, Seq<u8>)>::empty());
            assert(Seq::<(Seq<char>, Seq<u8>)>::empty() + extract_plan_spec(all, output_dir@)
                =~= extract_plan_spec(all, output_dir@));
        }
        let mut i: usize = 0;
        while i < entries.len()
            invariant
                i <= entries@.len(),
                all == entries@.map_values(|e: ArchiveEntry| e@),
                extract_plan_spec(all, output_dir@) == out@.map_values(|f: ExtractedFile| f@)
                    + extract_plan_spec(all.skip(i as int), output_dir@),
            decreases entries@.len() - i,
        {
            let entry = &entries[i];
            proof {
                assert(all.skip(i as int).first() == entry@);
                assert(all.skip(i as int).drop_first() =~= all.skip(i + 1));
            }
            if should_extract_entry(entry) {
                match base_name(entry.name.as_str()) {
                    Some(b) => {
                        let path = join_path(output_dir, b.as_str());
                        let file = ExtractedFile { path, data: entry.data.clone() };
                        proof {
                            assert(out@.push(file).map_values(|f: ExtractedFile| f@) =~= out@
                                .map_values(|f: ExtractedFile| f@).push(file@));
                            assert(seq![(joined_path_spec(output_dir@, b@), entry.data@)]
                                + extract_plan_spec(all.skip(i + 1), output_dir@)
                                =~= extract_plan_spec(all.skip(i as int), output_dir@));
                            assert(out@.map_values(|f: ExtractedFile| f@).push(file@)
                                + extract_plan_spec(all.skip(i + 1), output_dir@) =~= out@
                                .map_values(|f: ExtractedFile| f@) + extract_plan_spec(
                                all.skip(i as int),
                                output_dir@,
                            ));
                        }
                        out.push(file);
                    },
                    None => {
                    },
                }
            }
            i = i + 1;
        }
        proof {
            assert(all.skip(all.len() as int) =~= Seq::<(Seq<char>, bool, Seq<u8>)>::empty());
            assert(out@.map_values(|f: ExtractedFile| f@) + Seq::<(Seq<char>, Seq<u8>)>::empty()
                =~= out@.map_values(|f: ExtractedFile| f@));
        }
        Ok(out)
    }
}

} // verus!
