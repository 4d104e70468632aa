//! Where the data files of a bucket stand and how they are named.

use crate::text::{decimal, push_i32, push_usize};
use vstd::prelude::*;
use vstd::string::*;

verus! {

/// What every writer of one bucket of one partition is told.
pub struct WriterConfig {
    pub table_location: String,
    /// The partition's directory below the table, or nothing.
    pub partition_path: String,
    pub bucket: i32,
    pub schema_id: i64,
    pub target_file_size: i64,
    pub file_compression: String,
    pub file_compression_zstd_level: i32,
    pub write_buffer_size: i64,
}

/// A file to create: the directory to make first, ending in a slash, the file in it, and how its
/// content is compressed.
pub struct NewFile {
    pub directory: String,
    pub path: String,
    pub compression: String,
    pub zstd_level: i32,
}

/// Whether a character is a hexadecimal digit in lower case.
pub open spec fn is_hex(c: char) -> bool {
    ('0' <= c && c <= '9') || ('a' <= c && c <= 'f')
}

/// Whether the text is a random unique identifier with hyphens.
pub open spec fn is_uuid(text: Seq<char>) -> bool {
    &&& text.len() == 36
    &&& forall|i: int|
        #![trigger text[i]]
        0 <= i < 36 ==> if i == 8 || i == 13 || i == 18 || i == 23 {
            text[i] == '-'
        } else {
            is_hex(text[i])
        }
    &&& text[14] == '4'
    &&& text[19] == '8' || text[19] == '9' || text[19] == 'a' || text[19] == 'b'
}

/// The directory of a bucket.
pub open spec fn bucket_dir(location: Seq<char>, partition: Seq<char>, bucket: int) -> Seq<char> {
    if partition.len() == 0 {
        location + "/bucket-"@ + decimal(bucket)
    } else {
        location + "/"@ + partition + "/bucket-"@ + decimal(bucket)
    }
}

/// The name of a data file.
pub open spec fn file_name(uuid: Seq<char>, count: int) -> Seq<char> {
    "data-"@ + uuid + "-"@ + decimal(count) + ".parquet"@
}

/// Whether the text is a name for the data file that follows `count` others.
pub open spec fn is_file_name(text: Seq<char>, count: int) -> bool {
    exists|uuid: Seq<char>| is_uuid(uuid) && text == #[trigger] file_name(uuid, count)
}

/// `Uuid::new_v4`: a random identifier of version 4, as text with hyphens.
#[verifier::external_body]
fn new_uuid() -> (r: String)
    ensures
        is_uuid(r@),
{
    uuid::Uuid::new_v4().to_string()
}

/// The name of a data file that has the given identifier.
pub fn name_file(uuid: &String, count: usize) -> (r: String)
    ensures
        r@ == file_name(uuid@, count as int),
{
    let mut r: String = String::new();
    r.append("data-");
    r.append(uuid.as_str());
    r.append("-");
    push_usize(&mut r, count);
    r.append(".parquet");
    assert(r@ =~= file_name(uuid@, count as int));
    r
}

/// A fresh name for the data file that follows `count` others.
pub(crate) fn fresh_file_name(count: usize) -> (r: String)
    ensures
        is_file_name(r@, count as int),
{
    let uuid: String = new_uuid();
    name_file(&uuid, count)
}

impl WriterConfig {
    /// The directory of the bucket.
    pub open spec fn dir(&self) -> Seq<char> {
        bucket_dir(self.table_location@, self.partition_path@, self.bucket as int)
    }

    /// The request to create a file of the given name.
    pub open spec fn creates(&self, name: Seq<char>, file: NewFile) -> bool {
        &&& file.directory@ == self.dir() + "/"@
        &&& file.path@ == self.dir() + "/"@ + name
        &&& file.compression@ == self.file_compression@
        &&& file.zstd_level == self.file_compression_zstd_level
    }

    /// The request to create a file of the given name.
    pub fn create_file(&self, name: &String) -> (r: NewFile)
        ensures
            self.creates(name@, r),
    {
        let mut directory: String = self.table_location.clone();
        if self.partition_path.as_str().is_empty() {
            directory.append("/bucket-");
        } else {
            directory.append("/");
            directory.append(self.partition_path.as_str());
            directory.append("/bucket-");
        }
        push_i32(&mut directory, self.bucket);
        assert(directory@ =~= self.dir());
        directory.append("/");
        let mut path: String = directory.clone();
        path.append(name.as_str());
        NewFile {
            directory,
            path,
            compression: self.file_compression.clone(),
            zstd_level: self.file_compression_zstd_level,
        }
    }
}

} // verus!
