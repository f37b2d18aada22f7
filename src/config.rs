use vstd::prelude::*;

verus! {

/// Configuration of a writer of compressed plain-text files.
pub struct PlainZstTableWriterConfig {
    /// Extension given to every file written.
    pub extension: String,
    /// Compression level of the encoder.
    pub compression_level: i32,
}

impl Default for PlainZstTableWriterConfig {
    /// Files with extension `zst`, compressed at level 3.
    fn default() -> (r: Self)
        ensures
            r.extension@ == "zst"@,
            r.compression_level == 3,
    {
        PlainZstTableWriterConfig { extension: String::from_str("zst"), compression_level: 3 }
    }
}

impl Clone for PlainZstTableWriterConfig {
    fn clone(&self) -> (r: Self)
        ensures
            r.extension@ == self.extension@,
            r.compression_level == self.compression_level,
    {
        PlainZstTableWriterConfig { extension: self.extension.clone(), compression_level: self.compression_level }
    }
}

} // verus!
