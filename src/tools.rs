//! The two requests of the editing service, on values already read from disk:
//! rendering a file for the caller, and an edit batch guarded by the digest.

use vstd::prelude::*;
use vstd::string::*;
use crate::text::{chars_of, decimal, lines_of, lines_spec, push_decimal, texts};
use crate::hashing::{compute_file_hash, file_digest};
use crate::anchor::{anchor_error, anchor_reads, tag_content, tagged, HashlineError, LineAnchor};
use crate::ops::{apply_operations, apply_spec, HashlineOperation, OperationType};

verus! {

/// A request to read a file.
pub struct ReadTextInput {
    pub path: String,
}

/// A request to write a whole file.
pub struct WriteTextInput {
    pub path: String,
    pub content: String,
}

/// A request to edit a file: the digest from the last read and the batch.
pub struct EditTextInput {
    pub path: String,
    pub file_hash: String,
    pub operations: Vec<EditOperation>,
}

/// One operation as the caller writes it.
pub struct EditOperation {
    pub op_type: String,
    pub anchor: String,
    pub end_anchor: Option<String>,
    pub content: Option<String>,
}

/// The kind an operation name stands for.
pub open spec fn op_type_of(name: Seq<char>) -> Option<OperationType> {
    if name == seq!['r', 'e', 'p', 'l', 'a', 'c', 'e'] {
        Some(OperationType::Replace)
    } else if name == seq!['i', 'n', 's', 'e', 'r', 't', '_', 'a', 'f', 't', 'e', 'r'] {
        Some(OperationType::InsertAfter)
    } else if name == seq!['i', 'n', 's', 'e', 'r', 't', '_', 'b', 'e', 'f', 'o', 'r', 'e'] {
        Some(OperationType::InsertBefore)
    } else if name == seq!['d', 'e', 'l', 'e', 't', 'e'] {
        Some(OperationType::Delete)
    } else {
        None
    }
}

/// Why an operation as written is refused, if it is: its anchor first, then
/// its end anchor, then its name.
pub open spec fn edit_error(e: EditOperation) -> Option<HashlineError> {
    if anchor_error(e.anchor@) is Some {
        anchor_error(e.anchor@)
    } else if e.end_anchor is Some && anchor_error(e.end_anchor->Some_0@) is Some {
        anchor_error(e.end_anchor->Some_0@)
    } else if op_type_of(e.op_type@) is None {
        Some(HashlineError::UnknownOperation { name: e.op_type })
    } else {
        None
    }
}

/// `op` is what the written operation `e` says.
pub open spec fn edit_reads(e: EditOperation, op: HashlineOperation) -> bool {
    &&& anchor_reads(e.anchor@, op.anchor)
    &&& match e.end_anchor {
        None => op.end_anchor is None,
        Some(s) => op.end_anchor matches Some(a) && anchor_reads(s@, a),
    }
    &&& op_type_of(e.op_type@) == Some(op.op_type)
    &&& op.content == e.content
}

/// The first operation of a batch that is refused, if one is.
pub open spec fn first_edit_error(ops: Seq<EditOperation>) -> Option<HashlineError>
    decreases ops.len(),
{
    if ops.len() == 0 {
        None
    } else if edit_error(ops[0]) is Some {
        edit_error(ops[0])
    } else {
        first_edit_error(ops.drop_first())
    }
}

/// The whole read response for a file's content.
pub open spec fn read_output(content: Seq<char>) -> Seq<char> {
    tagged(lines_spec(content)) + "---\nhashline_version: 1\ntotal_lines: "@
        + decimal(lines_spec(content).len()) + "\nfile_hash: "@ + file_digest(content) + "\n"@
}

fn same_text(a: &str, b: &str) -> (r: bool)
    ensures
        r == (a@ == b@),
{
    let x = chars_of(a);
    let y = chars_of(b);
    if x.len() != y.len() {
        return false;
    }
    let mut i: usize = 0;
    while i < x.len()
        invariant
            x@ == a@,
            y@ == b@,
            x@.len() == y@.len(),
            i <= x@.len(),
            forall|j: int| 0 <= j < i ==> x@[j] == y@[j],
        decreases x.len() - i,
    {
        if x[i] != y[i] {
            return false;
        }
        i = i + 1;
    }
    assert(x@ =~= y@);
    true
}

/// The kind named by an operation name.
pub fn parse_operation_type(name: &String) -> (r: Result<OperationType, HashlineError>)
    ensures
        match op_type_of(name@) {
            Some(k) => r == Ok::<OperationType, HashlineError>(k),
            None => r == Err::<OperationType, HashlineError>(HashlineError::UnknownOperation { name: *name }),
        },
{
    proof {
        reveal_strlit("replace");
        reveal_strlit("insert_after");
        reveal_strlit("insert_before");
        reveal_strlit("delete");
        assert("replace"@ =~= seq!['r', 'e', 'p', 'l', 'a', 'c', 'e']);
        assert("insert_after"@ =~= seq!['i', 'n', 's', 'e', 'r', 't', '_', 'a', 'f', 't', 'e', 'r']);
        assert("insert_before"@ =~= seq!['i', 'n', 's', 'e', 'r', 't', '_', 'b', 'e', 'f', 'o', 'r', 'e']);
        assert("delete"@ =~= seq!['d', 'e', 'l', 'e', 't', 'e']);
    }
    if same_text(name.as_str(), "replace") {
        Ok(OperationType::Replace)
    } else if same_text(name.as_str(), "insert_after") {
        Ok(OperationType::InsertAfter)
    } else if same_text(name.as_str(), "insert_before") {
        Ok(OperationType::InsertBefore)
    } else if same_text(name.as_str(), "delete") {
        Ok(OperationType::Delete)
    } else {
        Err(HashlineError::UnknownOperation { name: name.clone() })
    }
}

/// Reads one operation as the caller wrote it.
pub fn parse_operation(e: &EditOperation) -> (r: Result<HashlineOperation, HashlineError>)
    ensures
        match edit_error(*e) {
            Some(err) => r matches Err(x) && x == err,
            None => r matches Ok(op) && edit_reads(*e, op),
        },
{
    let anchor = match LineAnchor::parse(e.anchor.as_str()) {
        Ok(a) => a,
        Err(err) => return Err(err),
    };
    let end_anchor = match &e.end_anchor {
        None => None,
        Some(s) => match LineAnchor::parse(s.as_str()) {
            Ok(a) => Some(a),
            Err(err) => return Err(err),
        },
    };
    let op_type = match parse_operation_type(&e.op_type) {
        Ok(k) => k,
        Err(err) => return Err(err),
    };
    let content = match &e.content {
        None => None,
        Some(c) => Some(c.clone()),
    };
    Ok(HashlineOperation { op_type, anchor, end_anchor, content })
}

/// The read response: the tagged lines, a `---` line, the format version,
/// the number of lines and the file digest.
pub fn read_text(content: &str) -> (r: String)
    ensures
        r@ == read_output(content@),
{
    let mut r = tag_content(content);
    let lines = lines_of(content);
    proof {
        reveal_strlit("---\nhashline_version: 1\ntotal_lines: ");
        reveal_strlit("\nfile_hash: ");
        reveal_strlit("\n");
        assert(lines@.len() == texts(lines@).len());
    }
    r.append("---\nhashline_version: 1\ntotal_lines: ");
    push_decimal(&mut r, lines.len());
    r.append("\nfile_hash: ");
    let h = compute_file_hash(content);
    r.append(h.as_str());
    r.append("\n");
    r
}

/// An edit batch on the live content of a file. It is refused as a whole when
/// `file_hash` is not the digest of `current`, when an operation is written
/// wrongly, or when the batch cannot be applied; otherwise the new content.
pub fn edit_text(current: &str, file_hash: &str, operations: Vec<EditOperation>) -> (r: Result<String, HashlineError>)
    ensures
        file_hash@ != file_digest(current@) ==> r == Err::<String, HashlineError>(HashlineError::Conflict),
        file_hash@ == file_digest(current@) && first_edit_error(operations@) is Some
            ==> r == Err::<String, HashlineError>(first_edit_error(operations@)->Some_0),
        file_hash@ == file_digest(current@) && first_edit_error(operations@) is None ==>
            exists|ops: Seq<HashlineOperation>|
                #![trigger apply_spec(current@, ops)]
                ops.len() == operations@.len()
                && (forall|i: int| 0 <= i < ops.len() ==> edit_reads(operations@[i], #[trigger] ops[i]))
                && (match apply_spec(current@, ops) {
                    Ok(s) => r matches Ok(x) && x@ == s,
                    Err(e) => r == Err::<String, HashlineError>(e),
                }),
{
    let digest = compute_file_hash(current);
    if !same_text(digest.as_str(), file_hash) {
        return Err(HashlineError::Conflict);
    }
    let ghost eops = operations@;
    assert(eops.skip(0) =~= eops);
    let mut ops: Vec<HashlineOperation> = Vec::new();
    let mut i: usize = 0;
    while i < operations.len()
        invariant
            eops == operations@,
            file_hash@ == file_digest(current@),
            i <= operations.len(),
            ops@.len() == i,
            forall|j: int| 0 <= j < i ==> edit_reads(eops[j], #[trigger] ops@[j]),
            first_edit_error(eops) == first_edit_error(eops.skip(i as int)),
        decreases operations.len() - i,
    {
        assert(eops.skip(i as int).drop_first() =~= eops.skip(i + 1));
        assert(eops.skip(i as int)[0] == eops[i as int]);
        match parse_operation(&operations[i]) {
            Ok(op) => {
                ops.push(op);
            },
            Err(err) => {
                return Err(err);
            },
        }
        i = i + 1;
    }
    let r = apply_operations(current, ops);
    assert(ops@.len() == operations@.len());
    r
}

} // verus!
