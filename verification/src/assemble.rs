//! Prompt assembly: concatenating the referenced files' contents, in
//! insertion order, with a per-file delimiter line. Reads come in from the
//! caller as plain values; a failed read degrades to an inline note instead
//! of failing the whole assembly.

use vstd::prelude::*;
use vstd::string::*;
use crate::numfmt::dec_rep;
use crate::numfmt::push_decimal;
use crate::store::FileReference;
use crate::store::PromptBuilder;

verus! {

/// One file's block in the prompt: a delimiter line naming the file, then
/// its content, or an inline note when the read failed, then a blank line.
pub open spec fn block_of(name: Seq<char>, content: Result<String, String>) -> Seq<char> {
    "=== File: "@ + name + " ===\n"@ + (match content {
        Ok(c) => c@ + "\n\n"@,
        Err(e) => "Error reading file: "@ + e@ + "\n\n"@,
    })
}

/// The whole prompt text for references and read results paired in order.
pub open spec fn prompt_of(
    entries: Seq<FileReference>,
    contents: Seq<Result<String, String>>,
) -> Seq<char>
    decreases entries.len(),
{
    if entries.len() == 0 {
        Seq::empty()
    } else {
        prompt_of(entries.drop_last(), contents.drop_last()) + block_of(
            entries.last().display_name@,
            contents.last(),
        )
    }
}

/// The size text shown for one entry: the byte count, or a fixed note when
/// the metadata lookup failed.
pub open spec fn size_label(s: Option<u64>) -> Seq<char> {
    match s {
        Some(n) => dec_rep(n as int) + " bytes"@,
        None => "Unknown size"@,
    }
}

fn format_size(s: Option<u64>) -> (r: String)
    ensures
        r@ == size_label(s),
{
    match s {
        Some(n) => {
            let mut t = String::new();
            push_decimal(&mut t, n);
            t.append(" bytes");
            proof {
                assert(t@ =~= size_label(s));
            }
            t
        },
        None => "Unknown size".to_owned(),
    }
}

impl PromptBuilder {
    /// Builds the prompt text: for every tracked file, in insertion order,
    /// a delimiter line naming it and then its content. `contents` carries
    /// the caller's read of each file, in the same order; a read error
    /// becomes an inline note in the output rather than a failure of the
    /// whole assembly, so partial context survives one bad file.
    pub fn build_prompt(&self, contents: &Vec<Result<String, String>>) -> (r: String)
        requires
            contents@.len() == self.refs().len(),
        ensures
            r@ == prompt_of(self.refs(), contents@),
    {
        let files = self.get_files();
        let n = files.len();
        let mut prompt = String::new();
        let mut i: usize = 0;
        while i < n
            invariant
                i <= n,
                n == files@.len(),
                files@ == self.refs(),
                contents@.len() == n,
                prompt@ == prompt_of(files@.take(i as int), contents@.take(i as int)),
            decreases n - i,
        {
            proof {
                assert(files@.take(i as int + 1).drop_last() =~= files@.take(i as int));
                assert(contents@.take(i as int + 1).drop_last() =~= contents@.take(i as int));
            }
            let ghost before = prompt@;
            prompt.append("=== File: ");
            prompt.append(files[i].display_name.as_str());
            prompt.append(" ===\n");
            let ci = &contents[i];
            match ci {
                Ok(c) => {
                    prompt.append(c.as_str());
                    prompt.append("\n\n");
                },
                Err(e) => {
                    prompt.append("Error reading file: ");
                    prompt.append(e.as_str());
                    prompt.append("\n\n");
                },
            }
            proof {
                assert(prompt@ =~= before + block_of(
                    files@[i as int].display_name@,
                    contents@[i as int],
                ));
                assert(prompt@ =~= prompt_of(
                    files@.take(i as int + 1),
                    contents@.take(i as int + 1),
                ));
            }
            i = i + 1;
        }
        proof {
            assert(files@.take(n as int) =~= files@);
            assert(contents@.take(n as int) =~= contents@);
        }
        prompt
    }

    /// For each tracked file, in insertion order, its display name and a
    /// human-readable size text. `sizes` carries the caller's metadata
    /// lookup per entry, in the same order: the byte size, or nothing when
    /// the lookup failed. No content is read for this.
    pub fn get_file_info(&self, sizes: &Vec<Option<u64>>) -> (r: Vec<(String, String)>)
        requires
            sizes@.len() == self.refs().len(),
        ensures
            r@.len() == self.refs().len(),
            forall|k: int|
                0 <= k < r@.len() ==> (#[trigger] r@[k]).0@ == self.refs()[k].display_name@,
            forall|k: int| 0 <= k < r@.len() ==> (#[trigger] r@[k]).1@ == size_label(sizes@[k]),
    {
        let files = self.get_files();
        let n = files.len();
        let mut out: Vec<(String, String)> = Vec::new();
        let mut i: usize = 0;
        while i < n
            invariant
                i <= n,
                n == files@.len(),
                files@ == self.refs(),
                sizes@.len() == n,
                out@.len() == i,
                forall|k: int|
                    0 <= k < i ==> (#[trigger] out@[k]).0@ == files@[k].display_name@,
                forall|k: int| 0 <= k < i ==> (#[trigger] out@[k]).1@ == size_label(sizes@[k]),
            decreases n - i,
        {
            let name = files[i].display_name.clone();
            let size = format_size(sizes[i]);
            out.push((name, size));
            i = i + 1;
        }
        out
    }
}

} // verus!
