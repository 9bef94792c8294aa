use vstd::prelude::*;
use vstd::string::*;
use vstd::slice::slice_to_vec;
use vstd::utf8::encode_utf8;
use crate::http::utf8_bytes;
use crate::ident::id_of;
use crate::text::{chars_of, is_last_dot, push_chars, push_str, str_eq};

verus! {

/// The contents directory as a map from file name to file contents.
pub type Directory = Map<Seq<char>, Seq<u8>>;

/// One file to write into the contents directory, replacing any file of that
/// name.
pub struct FileWrite {
    pub name: String,
    pub bytes: Vec<u8>,
}

pub open spec fn write_view(w: FileWrite) -> (Seq<char>, Seq<u8>) {
    (w.name@, w.bytes@)
}

/// The directory after the writes, in order.
pub open spec fn apply_writes(dir: Directory, ws: Seq<(Seq<char>, Seq<u8>)>) -> Directory
    decreases ws.len(),
{
    if ws.len() == 0 {
        dir
    } else {
        apply_writes(dir, ws.drop_last()).insert(ws.last().0, ws.last().1)
    }
}

/// The name of the sidecar that holds an object's metadata.
pub open spec fn sidecar_name(id: Seq<char>) -> Seq<char> {
    id + ".json"@
}

/// What storing an object writes: nothing if a file of its identifier is
/// there already (the first writer wins), else the data, then the metadata.
pub open spec fn put_writes(id: Seq<char>, already_stored: bool, data: Seq<u8>, metadata_text: Seq<
    char,
>) -> Seq<(Seq<char>, Seq<u8>)> {
    if already_stored {
        seq![]
    } else {
        seq![(id, data), (sidecar_name(id), encode_utf8(metadata_text))]
    }
}

/// The directory after an upload of `data` with the metadata text given.
pub open spec fn dir_after_put(
    dir: Directory,
    data: Seq<u8>,
    metadata_text: Seq<char>,
) -> Directory {
    let id = id_of(data);
    apply_writes(dir, put_writes(id, dir.contains_key(id), data, metadata_text))
}

/// The files to write to store `data` under `id`, given whether a file named
/// `id` exists.
pub fn store_writes(id: &str, already_stored: bool, data: &[u8], metadata_text: &str) -> (r: Vec<
    FileWrite,
>)
    ensures
        r@.map_values(|w: FileWrite| write_view(w)) == put_writes(
            id@,
            already_stored,
            data@,
            metadata_text@,
        ),
{
    let mut ws: Vec<FileWrite> = Vec::new();
    if !already_stored {
        let mut sidecar = String::new();
        push_str(&mut sidecar, id);
        push_str(&mut sidecar, ".json");
        ws.push(FileWrite { name: id.to_owned(), bytes: slice_to_vec(data) });
        ws.push(FileWrite { name: sidecar, bytes: utf8_bytes(metadata_text) });
    }
    assert(ws@.map_values(|w: FileWrite| write_view(w)) =~= put_writes(
        id@,
        already_stored,
        data@,
        metadata_text@,
    ));
    ws
}

/// Uploading the same body again changes nothing on disk: the identifier is
/// already taken, so the data and the first writer's metadata stay.
pub proof fn lemma_put_idempotent(
    dir: Directory,
    data: Seq<u8>,
    first: Seq<char>,
    second: Seq<char>,
)
    ensures
        dir_after_put(dir_after_put(dir, data, first), data, second) == dir_after_put(
            dir,
            data,
            first,
        ),
        dir_after_put(dir, data, first).contains_key(id_of(data)),
{
    let id = id_of(data);
    reveal_strlit(".json");
    assert(sidecar_name(id).len() != id.len());
    lemma_put_writes_effect(dir, data, first);
    let d1 = dir_after_put(dir, data, first);
    lemma_put_writes_effect(d1, data, second);
}

/// After an upload of `data` into a directory where its identifier was free
/// (or held the same bytes), the identifier's file holds `data`, and a file
/// of the sidecar's name holds the metadata text.
pub proof fn lemma_put_stores(dir: Directory, data: Seq<u8>, metadata_text: Seq<char>)
    requires
        dir.contains_key(id_of(data)) ==> dir[id_of(data)] == data,
    ensures
        dir_after_put(dir, data, metadata_text).contains_key(id_of(data)),
        dir_after_put(dir, data, metadata_text)[id_of(data)] == data,
        !dir.contains_key(id_of(data)) ==> dir_after_put(dir, data, metadata_text)[sidecar_name(
            id_of(data),
        )] == encode_utf8(metadata_text),
{
    let id = id_of(data);
    reveal_strlit(".json");
    assert(sidecar_name(id).len() != id.len());
    lemma_put_writes_effect(dir, data, metadata_text);
}

proof fn lemma_put_writes_effect(dir: Directory, data: Seq<u8>, metadata_text: Seq<char>)
    ensures
        dir_after_put(dir, data, metadata_text) == if dir.contains_key(id_of(data)) {
            dir
        } else {
            dir.insert(id_of(data), data).insert(
                sidecar_name(id_of(data)),
                encode_utf8(metadata_text),
            )
        },
{
    let id = id_of(data);
    let ws = put_writes(id, dir.contains_key(id), data, metadata_text);
    if !dir.contains_key(id) {
        assert(ws.drop_last().drop_last() =~= seq![]);
        assert(ws.drop_last().last() == (id, data));
        assert(apply_writes(dir, ws.drop_last().drop_last()) == dir);
        assert(apply_writes(dir, ws.drop_last()) == dir.insert(id, data));
    } else {
        assert(ws.len() == 0);
    }
}

/// The first position in a directory listing whose name is `id` exactly.
pub fn find_entry(names: &Vec<String>, id: &str) -> (r: Option<usize>)
    ensures
        r matches Some(i) ==> {
            &&& i < names@.len()
            &&& names@[i as int]@ == id@
            &&& forall|j: int| 0 <= j < i ==> (#[trigger] names@[j])@ != id@
        },
        r is None ==> forall|j: int| 0 <= j < names@.len() ==> (#[trigger] names@[j])@ != id@,
{
    let mut i: usize = 0;
    while i < names.len()
        invariant
            i <= names@.len(),
            forall|j: int| 0 <= j < i ==> (#[trigger] names@[j])@ != id@,
        decreases names.len() - i,
    {
        if str_eq(names[i].as_str(), id) {
            return Some(i);
        }
        i = i + 1;
    }
    None
}

/// The file name with its extension set to `json`, as `Path::with_extension`
/// does: the text after the last `.` is replaced, unless that `.` opens the
/// name; a name without an extension gets `.json` added.
pub open spec fn with_json_extension(n: Seq<char>) -> Seq<char> {
    if exists|k: int| is_last_dot(n, k) && k > 0 {
        let k = choose|k: int| is_last_dot(n, k) && k > 0;
        n.take(k) + ".json"@
    } else {
        n + ".json"@
    }
}

/// The sidecar of the directory entry named `name`.
pub fn metadata_file_name(name: &str) -> (r: String)
    ensures
        r@ == with_json_extension(name@),
{
    let cs = chars_of(name);
    let mut k: usize = cs.len();
    while k > 0 && cs[k - 1] != '.'
        invariant
            k <= cs@.len(),
            cs@ == name@,
            forall|j: int| k <= j < cs@.len() ==> cs@[j] != '.',
        decreases k,
    {
        k = k - 1;
    }
    let mut r = String::new();
    if k > 1 {
        let ghost d = (k - 1) as int;
        assert(is_last_dot(name@, d));
        assert forall|d2: int| is_last_dot(name@, d2) && d2 > 0 implies d2 == d by {
            if d2 < d {
                assert(name@[d] == '.');
            }
        }
        push_chars(&mut r, &cs, 0, k - 1);
        assert(cs@.subrange(0, d) == name@.take(d));
    } else {
        push_chars(&mut r, &cs, 0, cs.len());
        assert(cs@.subrange(0, cs@.len() as int) == name@);
        assert forall|d2: int| !(is_last_dot(name@, d2) && d2 > 0) by {
            if is_last_dot(name@, d2) && d2 > 0 {
                if k == 1 {
                    assert(name@[0] == '.');
                }
            }
        }
    }
    push_str(&mut r, ".json");
    r
}

} // verus!
