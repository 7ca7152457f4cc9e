use vstd::prelude::*;

use crate::access::{dict_get, int_value, is_int, lookup_model};
use crate::error::Error;
use crate::order::lex_lt;
use crate::ser::{enc, to_bytes};
use crate::value::{
    canon, lemma_vm_items, lemma_vm_items_push, lemma_vm_pairs, lemma_vm_pairs_push, vm_items,
    vm_pairs, Value, ValueModel,
};
use vstd::string::{StrSliceExecFns, StringExecFns};
use vstd::utf8::encode_utf8;

verus! {

/// One file of a multi-file torrent.
#[derive(Debug, PartialEq)]
pub struct FileInfo {
    pub length: u64,
    pub md5sum: Option<String>,
    pub path: Vec<String>,
}

/// The torrent's info dictionary.  The SHA-1 of its canonical encoding
/// is the torrent's identity, so its round trip must be byte-exact.
#[derive(Debug, PartialEq)]
pub struct InfoDict {
    pub files: Option<Vec<FileInfo>>,
    pub length: Option<usize>,
    pub md5sum: Option<String>,
    pub name: String,
    pub piece_length: u64,
    pub pieces: Vec<u8>,
    pub private: Option<bool>,
}

/// The whole `.torrent` metadata record.
#[derive(Debug, PartialEq)]
pub struct MetaInfo {
    pub announce: String,
    pub announce_list: Option<Vec<Vec<String>>>,
    pub comment: Option<String>,
    pub created_by: Option<String>,
    pub creation_date: Option<u64>,
    pub encoding: Option<String>,
    pub info: InfoDict,
}

/// The raw bytes of the dictionary key `length`.
pub open spec fn length_key() -> Seq<u8> {
    seq![0x6cu8, 0x65, 0x6e, 0x67, 0x74, 0x68]
}

/// The raw bytes of the dictionary key `md5sum`.
pub open spec fn md5sum_key() -> Seq<u8> {
    seq![0x6du8, 0x64, 0x35, 0x73, 0x75, 0x6d]
}

/// The raw bytes of the dictionary key `path`.
pub open spec fn path_key() -> Seq<u8> {
    seq![0x70u8, 0x61, 0x74, 0x68]
}

/// The raw bytes of the dictionary key `files`.
pub open spec fn files_key() -> Seq<u8> {
    seq![0x66u8, 0x69, 0x6c, 0x65, 0x73]
}

/// The raw bytes of the dictionary key `name`.
pub open spec fn name_key() -> Seq<u8> {
    seq![0x6eu8, 0x61, 0x6d, 0x65]
}

/// The raw bytes of the dictionary key `piece length`: the schema field
/// `piece_length` is renamed to it on the wire.
pub open spec fn piece_length_key() -> Seq<u8> {
    seq![0x70u8, 0x69, 0x65, 0x63, 0x65, 0x20, 0x6c, 0x65, 0x6e, 0x67, 0x74, 0x68]
}

/// The raw bytes of the dictionary key `pieces`.
pub open spec fn pieces_key() -> Seq<u8> {
    seq![0x70u8, 0x69, 0x65, 0x63, 0x65, 0x73]
}

/// The raw bytes of the dictionary key `private`.
pub open spec fn private_key() -> Seq<u8> {
    seq![0x70u8, 0x72, 0x69, 0x76, 0x61, 0x74, 0x65]
}

/// The raw bytes of the dictionary key `announce`.
pub open spec fn announce_key() -> Seq<u8> {
    seq![0x61u8, 0x6e, 0x6e, 0x6f, 0x75, 0x6e, 0x63, 0x65]
}

/// The raw bytes of the dictionary key `announce-list`.
pub open spec fn announce_list_key() -> Seq<u8> {
    seq![0x61u8, 0x6e, 0x6e, 0x6f, 0x75, 0x6e, 0x63, 0x65, 0x2d, 0x6c, 0x69, 0x73, 0x74]
}

/// The raw bytes of the dictionary key `comment`.
pub open spec fn comment_key() -> Seq<u8> {
    seq![0x63u8, 0x6f, 0x6d, 0x6d, 0x65, 0x6e, 0x74]
}

/// The raw bytes of the dictionary key `created by`.
pub open spec fn created_by_key() -> Seq<u8> {
    seq![0x63u8, 0x72, 0x65, 0x61, 0x74, 0x65, 0x64, 0x20, 0x62, 0x79]
}

/// The raw bytes of the dictionary key `creation date`.
pub open spec fn creation_date_key() -> Seq<u8> {
    seq![0x63u8, 0x72, 0x65, 0x61, 0x74, 0x69, 0x6f, 0x6e, 0x20, 0x64, 0x61, 0x74, 0x65]
}

/// The raw bytes of the dictionary key `encoding`.
pub open spec fn encoding_key() -> Seq<u8> {
    seq![0x65u8, 0x6e, 0x63, 0x6f, 0x64, 0x69, 0x6e, 0x67]
}

/// The raw bytes of the dictionary key `info`.
pub open spec fn info_key() -> Seq<u8> {
    seq![0x69u8, 0x6e, 0x66, 0x6f]
}

/// The model of an unsigned integer value.
pub open spec fn uint_vm(n: u64) -> ValueModel {
    ValueModel::Int { negative: false, magnitude: n }
}

/// The model of a boolean value: the integer one or zero.
pub open spec fn bool_vm(b: bool) -> ValueModel {
    uint_vm(
        if b {
            1
        } else {
            0
        },
    )
}

/// The model of a text value: the byte string of its UTF-8 encoding.
pub open spec fn str_vm(s: Seq<char>) -> ValueModel {
    ValueModel::Bytes(encode_utf8(s))
}

/// The models of a sequence of text values.
pub open spec fn strings_vm(ss: Seq<String>) -> Seq<ValueModel> {
    Seq::new(ss.len(), |i: int| str_vm(ss[i]@))
}

/// A dictionary pair present only when the optional field is.
pub open spec fn pair_if(present: bool, k: Seq<u8>, v: ValueModel) -> Seq<(Seq<u8>, ValueModel)> {
    if present {
        seq![(k, v)]
    } else {
        Seq::empty()
    }
}

impl FileInfo {
    /// The bencoding model of this record: its fields under their wire
    /// keys, in sorted key order, absent optional fields omitted.
    pub open spec fn vm(self) -> ValueModel {
        ValueModel::Dict(
            seq![(length_key(), uint_vm(self.length))] + pair_if(
                self.md5sum is Some,
                md5sum_key(),
                str_vm(self.md5sum->0@),
            ) + seq![(path_key(), ValueModel::List(strings_vm(self.path@)))],
        )
    }
}

impl InfoDict {
    /// The bencoding model of this record: its fields under their wire
    /// keys, in sorted key order, absent optional fields omitted.
    pub open spec fn vm(self) -> ValueModel {
        ValueModel::Dict(
            pair_if(
                self.files is Some,
                files_key(),
                ValueModel::List(Seq::new(self.files->0@.len(), |i: int| self.files->0@[i].vm())),
            ) + pair_if(self.length is Some, length_key(), uint_vm(self.length->0 as u64))
                + pair_if(self.md5sum is Some, md5sum_key(), str_vm(self.md5sum->0@)) + seq![
                (name_key(), str_vm(self.name@)),
                (piece_length_key(), uint_vm(self.piece_length)),
                (pieces_key(), ValueModel::Bytes(self.pieces@)),
            ] + pair_if(self.private is Some, private_key(), bool_vm(self.private->0)),
        )
    }
}

impl MetaInfo {
    /// The bencoding model of this record: its fields under their wire
    /// keys, in sorted key order, absent optional fields omitted.
    pub open spec fn vm(self) -> ValueModel {
        ValueModel::Dict(
            seq![(announce_key(), str_vm(self.announce@))] + pair_if(
                self.announce_list is Some,
                announce_list_key(),
                ValueModel::List(
                    Seq::new(
                        self.announce_list->0@.len(),
                        |i: int| ValueModel::List(strings_vm(self.announce_list->0@[i]@)),
                    ),
                ),
            ) + pair_if(self.comment is Some, comment_key(), str_vm(self.comment->0@)) + pair_if(
                self.created_by is Some,
                created_by_key(),
                str_vm(self.created_by->0@),
            ) + pair_if(
                self.creation_date is Some,
                creation_date_key(),
                uint_vm(self.creation_date->0),
            ) + pair_if(self.encoding is Some, encoding_key(), str_vm(self.encoding->0@))
                + seq![(info_key(), self.info.vm())],
        )
    }
}

/// The key `length` as raw bytes.
pub fn length_key_vec() -> (k: Vec<u8>)
    ensures
        k@ =~= length_key(),
{
    let a: [u8; 6] = [0x6c, 0x65, 0x6e, 0x67, 0x74, 0x68];
    vstd::slice::slice_to_vec(a.as_slice())
}

/// The key `md5sum` as raw bytes.
pub fn md5sum_key_vec() -> (k: Vec<u8>)
    ensures
        k@ =~= md5sum_key(),
{
    let a: [u8; 6] = [0x6d, 0x64, 0x35, 0x73, 0x75, 0x6d];
    vstd::slice::slice_to_vec(a.as_slice())
}

/// The key `path` as raw bytes.
pub fn path_key_vec() -> (k: Vec<u8>)
    ensures
        k@ =~= path_key(),
{
    let a: [u8; 4] = [0x70, 0x61, 0x74, 0x68];
    vstd::slice::slice_to_vec(a.as_slice())
}

/// The key `files` as raw bytes.
pub fn files_key_vec() -> (k: Vec<u8>)
    ensures
        k@ =~= files_key(),
{
    let a: [u8; 5] = [0x66, 0x69, 0x6c, 0x65, 0x73];
    vstd::slice::slice_to_vec(a.as_slice())
}

/// The key `name` as raw bytes.
pub fn name_key_vec() -> (k: Vec<u8>)
    ensures
        k@ =~= name_key(),
{
    let a: [u8; 4] = [0x6e, 0x61, 0x6d, 0x65];
    vstd::slice::slice_to_vec(a.as_slice())
}

/// The key `piece length` as raw bytes.
pub fn piece_length_key_vec() -> (k: Vec<u8>)
    ensures
        k@ =~= piece_length_key(),
{
    let a: [u8; 12] = [0x70, 0x69, 0x65, 0x63, 0x65, 0x20, 0x6c, 0x65, 0x6e, 0x67, 0x74, 0x68];
    vstd::slice::slice_to_vec(a.as_slice())
}

/// The key `pieces` as raw bytes.
pub fn pieces_key_vec() -> (k: Vec<u8>)
    ensures
        k@ =~= pieces_key(),
{
    let a: [u8; 6] = [0x70, 0x69, 0x65, 0x63, 0x65, 0x73];
    vstd::slice::slice_to_vec(a.as_slice())
}

/// The key `private` as raw bytes.
pub fn private_key_vec() -> (k: Vec<u8>)
    ensures
        k@ =~= private_key(),
{
    let a: [u8; 7] = [0x70, 0x72, 0x69, 0x76, 0x61, 0x74, 0x65];
    vstd::slice::slice_to_vec(a.as_slice())
}

/// The key `announce` as raw bytes.
pub fn announce_key_vec() -> (k: Vec<u8>)
    ensures
        k@ =~= announce_key(),
{
    let a: [u8; 8] = [0x61, 0x6e, 0x6e, 0x6f, 0x75, 0x6e, 0x63, 0x65];
    vstd::slice::slice_to_vec(a.as_slice())
}

/// The key `announce-list` as raw bytes.
pub fn announce_list_key_vec() -> (k: Vec<u8>)
    ensures
        k@ =~= announce_list_key(),
{
    let a: [u8; 13] = [
        0x61,
        0x6e,
        0x6e,
        0x6f,
        0x75,
        0x6e,
        0x63,
        0x65,
        0x2d,
        0x6c,
        0x69,
        0x73,
        0x74,
    ];
    vstd::slice::slice_to_vec(a.as_slice())
}

/// The key `comment` as raw bytes.
pub fn comment_key_vec() -> (k: Vec<u8>)
    ensures
        k@ =~= comment_key(),
{
    let a: [u8; 7] = [0x63, 0x6f, 0x6d, 0x6d, 0x65, 0x6e, 0x74];
    vstd::slice::slice_to_vec(a.as_slice())
}

/// The key `created by` as raw bytes.
pub fn created_by_key_vec() -> (k: Vec<u8>)
    ensures
        k@ =~= created_by_key(),
{
    let a: [u8; 10] = [0x63, 0x72, 0x65, 0x61, 0x74, 0x65, 0x64, 0x20, 0x62, 0x79];
    vstd::slice::slice_to_vec(a.as_slice())
}

/// The key `creation date` as raw bytes.
pub fn creation_date_key_vec() -> (k: Vec<u8>)
    ensures
        k@ =~= creation_date_key(),
{
    let a: [u8; 13] = [
        0x63,
        0x72,
        0x65,
        0x61,
        0x74,
        0x69,
        0x6f,
        0x6e,
        0x20,
        0x64,
        0x61,
        0x74,
        0x65,
    ];
    vstd::slice::slice_to_vec(a.as_slice())
}

/// The key `encoding` as raw bytes.
pub fn encoding_key_vec() -> (k: Vec<u8>)
    ensures
        k@ =~= encoding_key(),
{
    let a: [u8; 8] = [0x65, 0x6e, 0x63, 0x6f, 0x64, 0x69, 0x6e, 0x67];
    vstd::slice::slice_to_vec(a.as_slice())
}

/// The key `info` as raw bytes.
pub fn info_key_vec() -> (k: Vec<u8>)
    ensures
        k@ =~= info_key(),
{
    let a: [u8; 4] = [0x69, 0x6e, 0x66, 0x6f];
    vstd::slice::slice_to_vec(a.as_slice())
}

/// Text as a bencoding value: the byte string of its UTF-8 encoding.
pub fn str_value(s: &String) -> (v: Value)
    ensures
        v@ == str_vm(s@),
{
    Value::Bytes(s.as_str().as_bytes_vec())
}

/// A list of text values.
pub fn strings_value(ss: &Vec<String>) -> (v: Value)
    ensures
        v@ == ValueModel::List(strings_vm(ss@)),
{
    let mut items: Vec<Value> = Vec::new();
    let mut i: usize = 0;
    while i < ss.len()
        invariant
            0 <= i <= ss@.len(),
            vm_items(items@) =~= strings_vm(ss@).take(i as int),
        decreases ss@.len() - i,
    {
        let it = str_value(&ss[i]);
        proof {
            lemma_vm_items_push(items@, it);
            assert(strings_vm(ss@).take(i + 1) =~= strings_vm(ss@).take(i as int).push(
                str_vm(ss@[i as int]@),
            ));
        }
        items.push(it);
        i = i + 1;
    }
    proof {
        assert(strings_vm(ss@).take(ss@.len() as int) =~= strings_vm(ss@));
    }
    Value::List(items)
}

impl FileInfo {
    /// Builds the bencoding value of this record; absent optional
    /// fields contribute no dictionary pair.
    pub fn to_value(&self) -> (v: Value)
        ensures
            v@ == self.vm(),
    {
        let mut pairs: Vec<(Vec<u8>, Value)> = Vec::new();
        pairs.push((length_key_vec(), Value::Int { negative: false, magnitude: self.length }));
        proof {
            lemma_vm_pairs(pairs@, pairs@.len() as int);
            assert(vm_pairs(pairs@) =~= seq![(length_key(), uint_vm(self.length))]);
        }
        let ghost stage1 = vm_pairs(pairs@);
        match &self.md5sum {
            Some(m) => {
                let mv = str_value(m);
                let k = md5sum_key_vec();
                proof {
                    lemma_vm_pairs_push(pairs@, k, mv);
                }
                pairs.push((k, mv));
                proof {
                    assert(vm_pairs(pairs@) =~= stage1 + pair_if(
                        self.md5sum is Some,
                        md5sum_key(),
                        str_vm(self.md5sum->0@),
                    ));
                }
            },
            None => {
                proof {
                    assert(vm_pairs(pairs@) =~= stage1 + pair_if(
                        self.md5sum is Some,
                        md5sum_key(),
                        str_vm(self.md5sum->0@),
                    ));
                }
            },
        }
        let ghost stage2 = vm_pairs(pairs@);
        let pv = strings_value(&self.path);
        let k = path_key_vec();
        proof {
            lemma_vm_pairs_push(pairs@, k, pv);
        }
        pairs.push((k, pv));
        proof {
            assert(vm_pairs(pairs@) =~= stage2 + seq![
                (path_key(), ValueModel::List(strings_vm(self.path@))),
            ]);
            assert(vm_pairs(pairs@) =~= seq![(length_key(), uint_vm(self.length))] + pair_if(
                self.md5sum is Some,
                md5sum_key(),
                str_vm(self.md5sum->0@),
            ) + seq![(path_key(), ValueModel::List(strings_vm(self.path@)))]);
        }
        Value::Dict(pairs)
    }
}

/// A list of file records as a bencoding value.
fn files_value(fs: &Vec<FileInfo>) -> (v: Value)
    ensures
        v@ == ValueModel::List(Seq::new(fs@.len(), |i: int| fs@[i].vm())),
{
    let ghost target = Seq::new(fs@.len(), |i: int| fs@[i].vm());
    let mut items: Vec<Value> = Vec::new();
    let mut i: usize = 0;
    while i < fs.len()
        invariant
            0 <= i <= fs@.len(),
            target == Seq::new(fs@.len(), |i: int| fs@[i].vm()),
            vm_items(items@) =~= target.take(i as int),
        decreases fs@.len() - i,
    {
        let it = fs[i].to_value();
        proof {
            lemma_vm_items_push(items@, it);
            assert(target.take(i + 1) =~= target.take(i as int).push(fs@[i as int].vm()));
        }
        items.push(it);
        i = i + 1;
    }
    proof {
        assert(target.take(fs@.len() as int) =~= target);
    }
    Value::List(items)
}

impl InfoDict {
    /// Builds the bencoding value of this record; absent optional
    /// fields contribute no dictionary pair.
    pub fn to_value(&self) -> (v: Value)
        ensures
            v@ == self.vm(),
    {
        let ghost seg_files = pair_if(
            self.files is Some,
            files_key(),
            ValueModel::List(Seq::new(self.files->0@.len(), |i: int| self.files->0@[i].vm())),
        );
        let ghost seg_length = pair_if(
            self.length is Some,
            length_key(),
            uint_vm(self.length->0 as u64),
        );
        let ghost seg_md5 = pair_if(self.md5sum is Some, md5sum_key(), str_vm(self.md5sum->0@));
        let ghost seg_req = seq![
            (name_key(), str_vm(self.name@)),
            (piece_length_key(), uint_vm(self.piece_length)),
            (pieces_key(), ValueModel::Bytes(self.pieces@)),
        ];
        let ghost seg_priv = pair_if(self.private is Some, private_key(), bool_vm(self.private->0));
        let mut pairs: Vec<(Vec<u8>, Value)> = Vec::new();
        proof {
            lemma_vm_pairs(pairs@, pairs@.len() as int);
        }
        match &self.files {
            Some(fs) => {
                let fv = files_value(fs);
                let k = files_key_vec();
                proof {
                    lemma_vm_pairs_push(pairs@, k, fv);
                }
                pairs.push((k, fv));
                proof {
                    assert(vm_pairs(pairs@) =~= seg_files);
                }
            },
            None => {
                proof {
                    assert(vm_pairs(pairs@) =~= seg_files);
                }
            },
        }
        let ghost st1 = vm_pairs(pairs@);
        match &self.length {
            Some(n) => {
                let k = length_key_vec();
                let nv = Value::Int { negative: false, magnitude: *n as u64 };
                proof {
                    lemma_vm_pairs_push(pairs@, k, nv);
                }
                pairs.push((k, nv));
                proof {
                    assert(vm_pairs(pairs@) =~= st1 + seg_length);
                }
            },
            None => {
                proof {
                    assert(vm_pairs(pairs@) =~= st1 + seg_length);
                }
            },
        }
        let ghost st2 = vm_pairs(pairs@);
        match &self.md5sum {
            Some(m) => {
                let k = md5sum_key_vec();
                let mv = str_value(m);
                proof {
                    lemma_vm_pairs_push(pairs@, k, mv);
                }
                pairs.push((k, mv));
                proof {
                    assert(vm_pairs(pairs@) =~= st2 + seg_md5);
                }
            },
            None => {
                proof {
                    assert(vm_pairs(pairs@) =~= st2 + seg_md5);
                }
            },
        }
        let ghost st3 = vm_pairs(pairs@);
        let k = name_key_vec();
        let nv = str_value(&self.name);
        proof {
            lemma_vm_pairs_push(pairs@, k, nv);
        }
        pairs.push((k, nv));
        let k = piece_length_key_vec();
        let plv = Value::Int { negative: false, magnitude: self.piece_length };
        proof {
            lemma_vm_pairs_push(pairs@, k, plv);
        }
        pairs.push((k, plv));
        let k = pieces_key_vec();
        let pcv = Value::Bytes(vstd::slice::slice_to_vec(self.pieces.as_slice()));
        proof {
            lemma_vm_pairs_push(pairs@, k, pcv);
        }
        pairs.push((k, pcv));
        proof {
            assert(vm_pairs(pairs@) =~= st3 + seg_req);
        }
        let ghost st4 = vm_pairs(pairs@);
        match &self.private {
            Some(b) => {
                let k = private_key_vec();
                let bv = Value::Int {
                    negative: false,
                    magnitude: if *b {
                        1
                    } else {
                        0
                    },
                };
                proof {
                    lemma_vm_pairs_push(pairs@, k, bv);
                }
                pairs.push((k, bv));
                proof {
                    assert(vm_pairs(pairs@) =~= st4 + seg_priv);
                }
            },
            None => {
                proof {
                    assert(vm_pairs(pairs@) =~= st4 + seg_priv);
                }
            },
        }
        proof {
            assert(vm_pairs(pairs@) =~= seg_files + seg_length + seg_md5 + seg_req + seg_priv);
        }
        Value::Dict(pairs)
    }

    /// Encodes this record canonically; the bytes are what the
    /// info-hash is computed over.  The record's model is already
    /// canonical, so the bytes are exactly its encoding.
    pub fn encode(&self) -> (r: Vec<u8>)
        ensures
            r@ == enc(self.vm()),
            canon(self.vm()) == self.vm(),
    {
        proof {
            lemma_info_dict_vm_props(*self);
            crate::value::lemma_wf_canon_id(self.vm());
        }
        let v = self.to_value();
        to_bytes(&v)
    }
}

impl MetaInfo {
    /// Builds the bencoding value of this record; absent optional
    /// fields contribute no dictionary pair.
    pub fn to_value(&self) -> (v: Value)
        ensures
            v@ == self.vm(),
    {
        let ghost seg_announce = seq![(announce_key(), str_vm(self.announce@))];
        let ghost seg_alist = pair_if(
            self.announce_list is Some,
            announce_list_key(),
            ValueModel::List(
                Seq::new(
                    self.announce_list->0@.len(),
                    |i: int| ValueModel::List(strings_vm(self.announce_list->0@[i]@)),
                ),
            ),
        );
        let ghost seg_comment = pair_if(self.comment is Some, comment_key(), str_vm(self.comment->0@));
        let ghost seg_created = pair_if(
            self.created_by is Some,
            created_by_key(),
            str_vm(self.created_by->0@),
        );
        let ghost seg_date = pair_if(
            self.creation_date is Some,
            creation_date_key(),
            uint_vm(self.creation_date->0),
        );
        let ghost seg_enc = pair_if(self.encoding is Some, encoding_key(), str_vm(self.encoding->0@));
        let ghost seg_info = seq![(info_key(), self.info.vm())];
        let mut pairs: Vec<(Vec<u8>, Value)> = Vec::new();
        proof {
            lemma_vm_pairs(pairs@, pairs@.len() as int);
        }
        let k = announce_key_vec();
        let av = str_value(&self.announce);
        proof {
            lemma_vm_pairs_push(pairs@, k, av);
        }
        pairs.push((k, av));
        proof {
            assert(vm_pairs(pairs@) =~= seg_announce);
        }
        let ghost st1 = vm_pairs(pairs@);
        match &self.announce_list {
            Some(ls) => {
                let ghost target = Seq::new(
                    ls@.len(),
                    |i: int| ValueModel::List(strings_vm(ls@[i]@)),
                );
                let mut tiers: Vec<Value> = Vec::new();
                let mut i: usize = 0;
                while i < ls.len()
                    invariant
                        0 <= i <= ls@.len(),
                        target == Seq::new(ls@.len(), |i: int| ValueModel::List(strings_vm(ls@[i]@))),
                        vm_items(tiers@) =~= target.take(i as int),
                    decreases ls@.len() - i,
                {
                    let tv = strings_value(&ls[i]);
                    proof {
                        lemma_vm_items_push(tiers@, tv);
                        assert(target.take(i + 1) =~= target.take(i as int).push(
                            ValueModel::List(strings_vm(ls@[i as int]@)),
                        ));
                    }
                    tiers.push(tv);
                    i = i + 1;
                }
                proof {
                    assert(target.take(ls@.len() as int) =~= target);
                }
                let k = announce_list_key_vec();
                let lv = Value::List(tiers);
                proof {
                    lemma_vm_pairs_push(pairs@, k, lv);
                }
                pairs.push((k, lv));
                proof {
                    assert(vm_pairs(pairs@) =~= st1 + seg_alist);
                }
            },
            None => {
                proof {
                    assert(vm_pairs(pairs@) =~= st1 + seg_alist);
                }
            },
        }
        let ghost st2 = vm_pairs(pairs@);
        match &self.comment {
            Some(c) => {
                let k = comment_key_vec();
                let cv = str_value(c);
                proof {
                    lemma_vm_pairs_push(pairs@, k, cv);
                }
                pairs.push((k, cv));
                proof {
                    assert(vm_pairs(pairs@) =~= st2 + seg_comment);
                }
            },
            None => {
                proof {
                    assert(vm_pairs(pairs@) =~= st2 + seg_comment);
                }
            },
        }
        let ghost st3 = vm_pairs(pairs@);
        match &self.created_by {
            Some(c) => {
                let k = created_by_key_vec();
                let cv = str_value(c);
                proof {
                    lemma_vm_pairs_push(pairs@, k, cv);
                }
                pairs.push((k, cv));
                proof {
                    assert(vm_pairs(pairs@) =~= st3 + seg_created);
                }
            },
            None => {
                proof {
                    assert(vm_pairs(pairs@) =~= st3 + seg_created);
                }
            },
        }
        let ghost st4 = vm_pairs(pairs@);
        match &self.creation_date {
            Some(d) => {
                let k = creation_date_key_vec();
                let dv = Value::Int { negative: false, magnitude: *d };
                proof {
                    lemma_vm_pairs_push(pairs@, k, dv);
                }
                pairs.push((k, dv));
                proof {
                    assert(vm_pairs(pairs@) =~= st4 + seg_date);
                }
            },
            None => {
                proof {
                    assert(vm_pairs(pairs@) =~= st4 + seg_date);
                }
            },
        }
        let ghost st5 = vm_pairs(pairs@);
        match &self.encoding {
            Some(c) => {
                let k = encoding_key_vec();
                let cv = str_value(c);
                proof {
                    lemma_vm_pairs_push(pairs@, k, cv);
                }
                pairs.push((k, cv));
                proof {
                    assert(vm_pairs(pairs@) =~= st5 + seg_enc);
                }
            },
            None => {
                proof {
                    assert(vm_pairs(pairs@) =~= st5 + seg_enc);
                }
            },
        }
        let ghost st6 = vm_pairs(pairs@);
        let k = info_key_vec();
        let iv = self.info.to_value();
        proof {
            lemma_vm_pairs_push(pairs@, k, iv);
        }
        pairs.push((k, iv));
        proof {
            assert(vm_pairs(pairs@) =~= st6 + seg_info);
            assert(vm_pairs(pairs@) =~= seg_announce + seg_alist + seg_comment + seg_created
                + seg_date + seg_enc + seg_info);
        }
        Value::Dict(pairs)
    }

    /// Encodes this record canonically.  The record's model is already
    /// canonical, so the bytes are exactly its encoding.
    pub fn encode(&self) -> (r: Vec<u8>)
        ensures
            r@ == enc(self.vm()),
            canon(self.vm()) == self.vm(),
    {
        proof {
            lemma_meta_info_vm_props(*self);
            crate::value::lemma_wf_canon_id(self.vm());
        }
        let v = self.to_value();
        to_bytes(&v)
    }
}

/// Whether a value is a byte string holding valid UTF-8 text.
pub open spec fn text_ok(m: ValueModel) -> bool {
    m matches ValueModel::Bytes(b) && vstd::utf8::valid_utf8(b)
}

/// The text a byte-string value holds.
pub open spec fn text_of(m: ValueModel) -> Seq<char> {
    match m {
        ValueModel::Bytes(b) => vstd::utf8::decode_utf8(b),
        _ => Seq::empty(),
    }
}

/// Whether a value is a list of text values.
pub open spec fn string_list_ok(m: ValueModel) -> bool {
    m matches ValueModel::List(items) && forall|i: int|
        0 <= i < items.len() ==> text_ok(#[trigger] items[i])
}

/// Whether the strings are exactly the texts of the list's elements.
pub open spec fn strings_match(ss: Seq<String>, m: ValueModel) -> bool {
    m matches ValueModel::List(items) && ss.len() == items.len() && forall|i: int|
        0 <= i < items.len() ==> ss[i]@ == text_of(#[trigger] items[i])
}

/// Reads a list of text values.
#[verifier::loop_isolation(false)]
pub fn decode_string_list(v: &Value) -> (r: Result<Vec<String>, Error>)
    ensures
        match r {
            Ok(ss) => string_list_ok(v@) && strings_match(ss@, v@),
            Err(_) => !string_list_ok(v@),
        },
{
    let items = match v.as_list() {
        Ok(items) => items,
        Err(e) => {
            return Err(e);
        },
    };
    let ghost im = vm_items(items@);
    proof {
        lemma_vm_items(items@, items@.len() as int);
    }
    let mut ss: Vec<String> = Vec::new();
    let mut i: usize = 0;
    while i < items.len()
        invariant
            0 <= i <= items@.len(),
            v@ == ValueModel::List(im),
            im == vm_items(items@),
            im.len() == items@.len(),
            forall|k: int| 0 <= k < im.len() ==> #[trigger] im[k] == items@[k].vm(),
            ss@.len() == i,
            forall|k: int| 0 <= k < i ==> text_ok(#[trigger] im[k]) && ss@[k]@ == text_of(im[k]),
        decreases items@.len() - i,
    {
        match items[i].as_string() {
            Ok(s) => {
                ss.push(s);
            },
            Err(e) => {
                proof {
                    assert(!text_ok(im[i as int]));
                    if string_list_ok(v@) {
                        assert(v@ matches ValueModel::List(its) && its == im);
                        assert(text_ok(im[i as int]));
                    }
                }
                return Err(e);
            },
        }
        i = i + 1;
    }
    Ok(ss)
}

/// Whether a dictionary value has the shape of a `FileInfo` record:
/// the required fields bound to values of the right kinds, optional
/// fields absent or of the right kinds, unknown keys ignored.
pub open spec fn file_info_ok(m: ValueModel) -> bool {
    &&& m matches ValueModel::Dict(ps)
    &&& lookup_model(ps, length_key()) matches Some(lv) && is_int(lv) && 0 <= int_value(lv)
        <= u64::MAX
    &&& match lookup_model(ps, md5sum_key()) {
        Option::None => true,
        Option::Some(mv) => text_ok(mv),
    }
    &&& lookup_model(ps, path_key()) matches Some(pv) && string_list_ok(pv)
}

/// Whether a `FileInfo` record holds exactly the fields a dictionary
/// value binds.
pub open spec fn file_info_matches(f: FileInfo, m: ValueModel) -> bool {
    &&& m matches ValueModel::Dict(ps)
    &&& f.length as int == int_value(lookup_model(ps, length_key())->0)
    &&& match lookup_model(ps, md5sum_key()) {
        Option::None => f.md5sum is None,
        Option::Some(mv) => f.md5sum matches Some(s) && s@ == text_of(mv),
    }
    &&& strings_match(f.path@, lookup_model(ps, path_key())->0)
}

impl FileInfo {
    /// Reads a `FileInfo` record out of a decoded dictionary value.
    pub fn from_value(v: &Value) -> (r: Result<FileInfo, Error>)
        ensures
            match r {
                Ok(f) => file_info_ok(v@) && file_info_matches(f, v@),
                Err(_) => !file_info_ok(v@),
            },
    {
        let pairs = match v.as_dict() {
            Ok(ps) => ps,
            Err(e) => {
                return Err(e);
            },
        };
        let length = match dict_get(pairs, length_key_vec().as_slice()) {
            Some(lv) => match lv.as_u64() {
                Ok(n) => n,
                Err(e) => {
                    return Err(e);
                },
            },
            None => {
                return Err(Error::Message(String::from_str("missing field length")));
            },
        };
        let md5sum = match dict_get(pairs, md5sum_key_vec().as_slice()) {
            Some(mv) => match mv.as_string() {
                Ok(s) => Some(s),
                Err(e) => {
                    return Err(e);
                },
            },
            None => None,
        };
        let path = match dict_get(pairs, path_key_vec().as_slice()) {
            Some(pv) => match decode_string_list(pv) {
                Ok(ss) => ss,
                Err(e) => {
                    return Err(e);
                },
            },
            None => {
                return Err(Error::Message(String::from_str("missing field path")));
            },
        };
        Ok(FileInfo { length, md5sum, path })
    }
}

/// Whether a dictionary value has the shape of an `InfoDict` record.
pub open spec fn info_dict_ok(m: ValueModel) -> bool {
    &&& m matches ValueModel::Dict(ps)
    &&& match lookup_model(ps, files_key()) {
        Option::None => true,
        Option::Some(fv) => fv matches ValueModel::List(items) && forall|i: int|
            0 <= i < items.len() ==> file_info_ok(#[trigger] items[i]),
    }
    &&& match lookup_model(ps, length_key()) {
        Option::None => true,
        Option::Some(lv) => is_int(lv) && 0 <= int_value(lv) <= usize::MAX,
    }
    &&& match lookup_model(ps, md5sum_key()) {
        Option::None => true,
        Option::Some(mv) => text_ok(mv),
    }
    &&& lookup_model(ps, name_key()) matches Some(nv) && text_ok(nv)
    &&& lookup_model(ps, piece_length_key()) matches Some(plv) && is_int(plv) && 0 <= int_value(
        plv,
    ) <= u64::MAX
    &&& lookup_model(ps, pieces_key()) matches Some(pcv) && (pcv matches ValueModel::Bytes(_))
    &&& match lookup_model(ps, private_key()) {
        Option::None => true,
        Option::Some(bv) => is_int(bv) && 0 <= int_value(bv) <= u32::MAX,
    }
}

/// Whether an `InfoDict` record holds exactly the fields a dictionary
/// value binds.
pub open spec fn info_dict_matches(d: InfoDict, m: ValueModel) -> bool {
    &&& m matches ValueModel::Dict(ps)
    &&& match lookup_model(ps, files_key()) {
        Option::None => d.files is None,
        Option::Some(fv) => fv matches ValueModel::List(items) && d.files matches Some(fs)
            && fs@.len() == items.len() && forall|i: int|
            0 <= i < items.len() ==> file_info_matches(fs@[i], #[trigger] items[i]),
    }
    &&& match lookup_model(ps, length_key()) {
        Option::None => d.length is None,
        Option::Some(lv) => d.length matches Some(n) && n as int == int_value(lv),
    }
    &&& match lookup_model(ps, md5sum_key()) {
        Option::None => d.md5sum is None,
        Option::Some(mv) => d.md5sum matches Some(s) && s@ == text_of(mv),
    }
    &&& d.name@ == text_of(lookup_model(ps, name_key())->0)
    &&& d.piece_length as int == int_value(lookup_model(ps, piece_length_key())->0)
    &&& ValueModel::Bytes(d.pieces@) == lookup_model(ps, pieces_key())->0
    &&& match lookup_model(ps, private_key()) {
        Option::None => d.private is None,
        Option::Some(bv) => d.private matches Some(b) && (b <==> int_value(bv) != 0),
    }
}

impl InfoDict {
    /// Reads an `InfoDict` record out of a decoded dictionary value.
    #[verifier::loop_isolation(false)]
    pub fn from_value(v: &Value) -> (r: Result<InfoDict, Error>)
        ensures
            match r {
                Ok(d) => info_dict_ok(v@) && info_dict_matches(d, v@),
                Err(_) => !info_dict_ok(v@),
            },
    {
        let pairs = match v.as_dict() {
            Ok(ps) => ps,
            Err(e) => {
                return Err(e);
            },
        };
        let files = match dict_get(pairs, files_key_vec().as_slice()) {
            Some(fv) => {
                let items = match fv.as_list() {
                    Ok(items) => items,
                    Err(e) => {
                        return Err(e);
                    },
                };
                let ghost im = vm_items(items@);
                proof {
                    lemma_vm_items(items@, items@.len() as int);
                }
                let mut fs: Vec<FileInfo> = Vec::new();
                let mut i: usize = 0;
                while i < items.len()
                    invariant
                        0 <= i <= items@.len(),
                        im == vm_items(items@),
                        im.len() == items@.len(),
                        forall|k: int| 0 <= k < im.len() ==> #[trigger] im[k] == items@[k].vm(),
                        fs@.len() == i,
                        forall|k: int|
                            0 <= k < i ==> file_info_ok(#[trigger] im[k]) && file_info_matches(
                                fs@[k],
                                im[k],
                            ),
                    decreases items@.len() - i,
                {
                    match FileInfo::from_value(&items[i]) {
                        Ok(f) => {
                            fs.push(f);
                        },
                        Err(e) => {
                            proof {
                                assert(!file_info_ok(im[i as int]));
                                if info_dict_ok(v@) {
                                    assert(fv@ matches ValueModel::List(its) && its == im);
                                    assert(file_info_ok(im[i as int]));
                                }
                            }
                            return Err(e);
                        },
                    }
                    i = i + 1;
                }
                Some(fs)
            },
            None => None,
        };
        let length = match dict_get(pairs, length_key_vec().as_slice()) {
            Some(lv) => match lv.as_u64() {
                Ok(n) => {
                    if n <= usize::MAX as u64 {
                        Some(n as usize)
                    } else {
                        return Err(Error::ExpectedInteger);
                    }
                },
                Err(e) => {
                    return Err(e);
                },
            },
            None => None,
        };
        let md5sum = match dict_get(pairs, md5sum_key_vec().as_slice()) {
            Some(mv) => match mv.as_string() {
                Ok(s) => Some(s),
                Err(e) => {
                    return Err(e);
                },
            },
            None => None,
        };
        let name = match dict_get(pairs, name_key_vec().as_slice()) {
            Some(nv) => match nv.as_string() {
                Ok(s) => s,
                Err(e) => {
                    return Err(e);
                },
            },
            None => {
                return Err(Error::Message(String::from_str("missing field name")));
            },
        };
        let piece_length = match dict_get(pairs, piece_length_key_vec().as_slice()) {
            Some(plv) => match plv.as_u64() {
                Ok(n) => n,
                Err(e) => {
                    return Err(e);
                },
            },
            None => {
                return Err(Error::Message(String::from_str("missing field piece length")));
            },
        };
        let pieces = match dict_get(pairs, pieces_key_vec().as_slice()) {
            Some(pcv) => match pcv.as_bytes() {
                Ok(b) => vstd::slice::slice_to_vec(b.as_slice()),
                Err(e) => {
                    return Err(e);
                },
            },
            None => {
                return Err(Error::Message(String::from_str("missing field pieces")));
            },
        };
        let private = match dict_get(pairs, private_key_vec().as_slice()) {
            Some(bv) => match bv.as_bool() {
                Ok(b) => Some(b),
                Err(e) => {
                    return Err(e);
                },
            },
            None => None,
        };
        Ok(InfoDict { files, length, md5sum, name, piece_length, pieces, private })
    }
}

/// Whether a dictionary value has the shape of a `MetaInfo` record.
pub open spec fn meta_info_ok(m: ValueModel) -> bool {
    &&& m matches ValueModel::Dict(ps)
    &&& lookup_model(ps, announce_key()) matches Some(av) && text_ok(av)
    &&& match lookup_model(ps, announce_list_key()) {
        Option::None => true,
        Option::Some(lv) => lv matches ValueModel::List(tiers) && forall|i: int|
            0 <= i < tiers.len() ==> string_list_ok(#[trigger] tiers[i]),
    }
    &&& match lookup_model(ps, comment_key()) {
        Option::None => true,
        Option::Some(cv) => text_ok(cv),
    }
    &&& match lookup_model(ps, created_by_key()) {
        Option::None => true,
        Option::Some(cv) => text_ok(cv),
    }
    &&& match lookup_model(ps, creation_date_key()) {
        Option::None => true,
        Option::Some(dv) => is_int(dv) && 0 <= int_value(dv) <= u64::MAX,
    }
    &&& match lookup_model(ps, encoding_key()) {
        Option::None => true,
        Option::Some(cv) => text_ok(cv),
    }
    &&& lookup_model(ps, info_key()) matches Some(iv) && info_dict_ok(iv)
}

/// Whether a `MetaInfo` record holds exactly the fields a dictionary
/// value binds.
pub open spec fn meta_info_matches(t: MetaInfo, m: ValueModel) -> bool {
    &&& m matches ValueModel::Dict(ps)
    &&& t.announce@ == text_of(lookup_model(ps, announce_key())->0)
    &&& match lookup_model(ps, announce_list_key()) {
        Option::None => t.announce_list is None,
        Option::Some(lv) => lv matches ValueModel::List(tiers) && t.announce_list matches Some(ls)
            && ls@.len() == tiers.len() && forall|i: int|
            0 <= i < tiers.len() ==> strings_match(ls@[i]@, #[trigger] tiers[i]),
    }
    &&& match lookup_model(ps, comment_key()) {
        Option::None => t.comment is None,
        Option::Some(cv) => t.comment matches Some(s) && s@ == text_of(cv),
    }
    &&& match lookup_model(ps, created_by_key()) {
        Option::None => t.created_by is None,
        Option::Some(cv) => t.created_by matches Some(s) && s@ == text_of(cv),
    }
    &&& match lookup_model(ps, creation_date_key()) {
        Option::None => t.creation_date is None,
        Option::Some(dv) => t.creation_date matches Some(n) && n as int == int_value(dv),
    }
    &&& match lookup_model(ps, encoding_key()) {
        Option::None => t.encoding is None,
        Option::Some(cv) => t.encoding matches Some(s) && s@ == text_of(cv),
    }
    &&& lookup_model(ps, info_key()) matches Some(iv) && info_dict_matches(t.info, iv)
}

impl MetaInfo {
    /// Reads a `MetaInfo` record out of a decoded dictionary value.
    #[verifier::loop_isolation(false)]
    pub fn from_value(v: &Value) -> (r: Result<MetaInfo, Error>)
        ensures
            match r {
                Ok(t) => meta_info_ok(v@) && meta_info_matches(t, v@),
                Err(_) => !meta_info_ok(v@),
            },
    {
        let pairs = match v.as_dict() {
            Ok(ps) => ps,
            Err(e) => {
                return Err(e);
            },
        };
        let announce = match dict_get(pairs, announce_key_vec().as_slice()) {
            Some(av) => match av.as_string() {
                Ok(s) => s,
                Err(e) => {
                    return Err(e);
                },
            },
            None => {
                return Err(Error::Message(String::from_str("missing field announce")));
            },
        };
        let announce_list = match dict_get(pairs, announce_list_key_vec().as_slice()) {
            Some(lv) => {
                let tiers = match lv.as_list() {
                    Ok(ts) => ts,
                    Err(e) => {
                        return Err(e);
                    },
                };
                let ghost im = vm_items(tiers@);
                proof {
                    lemma_vm_items(tiers@, tiers@.len() as int);
                }
                let mut ls: Vec<Vec<String>> = Vec::new();
                let mut i: usize = 0;
                while i < tiers.len()
                    invariant
                        0 <= i <= tiers@.len(),
                        im == vm_items(tiers@),
                        im.len() == tiers@.len(),
                        forall|k: int| 0 <= k < im.len() ==> #[trigger] im[k] == tiers@[k].vm(),
                        ls@.len() == i,
                        forall|k: int|
                            0 <= k < i ==> string_list_ok(#[trigger] im[k]) && strings_match(
                                ls@[k]@,
                                im[k],
                            ),
                    decreases tiers@.len() - i,
                {
                    match decode_string_list(&tiers[i]) {
                        Ok(ss) => {
                            ls.push(ss);
                        },
                        Err(e) => {
                            proof {
                                assert(!string_list_ok(im[i as int]));
                                if meta_info_ok(v@) {
                                    assert(lv@ matches ValueModel::List(its) && its == im);
                                    assert(string_list_ok(im[i as int]));
                                }
                            }
                            return Err(e);
                        },
                    }
                    i = i + 1;
                }
                Some(ls)
            },
            None => None,
        };
        let comment = match dict_get(pairs, comment_key_vec().as_slice()) {
            Some(cv) => match cv.as_string() {
                Ok(s) => Some(s),
                Err(e) => {
                    return Err(e);
                },
            },
            None => None,
        };
        let created_by = match dict_get(pairs, created_by_key_vec().as_slice()) {
            Some(cv) => match cv.as_string() {
                Ok(s) => Some(s),
                Err(e) => {
                    return Err(e);
                },
            },
            None => None,
        };
        let creation_date = match dict_get(pairs, creation_date_key_vec().as_slice()) {
            Some(dv) => match dv.as_u64() {
                Ok(n) => Some(n),
                Err(e) => {
                    return Err(e);
                },
            },
            None => None,
        };
        let encoding = match dict_get(pairs, encoding_key_vec().as_slice()) {
            Some(cv) => match cv.as_string() {
                Ok(s) => Some(s),
                Err(e) => {
                    return Err(e);
                },
            },
            None => None,
        };
        let info = match dict_get(pairs, info_key_vec().as_slice()) {
            Some(iv) => match InfoDict::from_value(iv) {
                Ok(d) => d,
                Err(e) => {
                    return Err(e);
                },
            },
            None => {
                return Err(Error::Message(String::from_str("missing field info")));
            },
        };
        Ok(MetaInfo {
            announce,
            announce_list,
            comment,
            created_by,
            creation_date,
            encoding,
            info,
        })
    }

    /// Decodes a whole `.torrent` buffer into a `MetaInfo` record.
    pub fn decode(input: &[u8]) -> (r: Result<MetaInfo, Error>)
        ensures
            match r {
                Ok(t) => crate::de::spec_from_bytes(input@) matches Ok(m) && meta_info_ok(m)
                    && meta_info_matches(t, m),
                Err(_) => !(crate::de::spec_from_bytes(input@) matches Ok(m) && meta_info_ok(m)),
            },
    {
        match crate::de::from_bytes(input) {
            Ok(v) => MetaInfo::from_value(&v),
            Err(e) => Err(e),
        }
    }
}

/// A `FileInfo` record's model is canonical, has the record's shape,
/// and binds exactly the record's fields.
pub proof fn lemma_file_info_vm_props(f: FileInfo)
    ensures
        crate::value::wf(f.vm()),
        file_info_ok(f.vm()),
        file_info_matches(f, f.vm()),
{
    broadcast use vstd::utf8::encode_utf8_valid_utf8, vstd::utf8::encode_utf8_decode_utf8;

    reveal_with_fuel(crate::order::lex_lt, 16);
    let has_md5 = f.md5sum is Some;
    let ps = seq![(length_key(), uint_vm(f.length))] + pair_if(
        has_md5,
        md5sum_key(),
        str_vm(f.md5sum->0@),
    ) + seq![(path_key(), ValueModel::List(strings_vm(f.path@)))];
    assert(f.vm() == ValueModel::Dict(ps));
    let ipath = if has_md5 {
        2int
    } else {
        1int
    };
    assert(ps.len() == ipath + 1);
    assert(ps[0] == (length_key(), uint_vm(f.length)));
    if has_md5 {
        assert(ps[1] == (md5sum_key(), str_vm(f.md5sum->0@)));
    }
    assert(ps[ipath] == (path_key(), ValueModel::List(strings_vm(f.path@))));
    assert(lex_lt(length_key(), md5sum_key()));
    assert(lex_lt(md5sum_key(), path_key()));
    assert(lex_lt(length_key(), path_key()));
    assert(length_key() != md5sum_key() && md5sum_key() != path_key() && length_key()
        != path_key()) by {
        assert(length_key()[0] != md5sum_key()[0]);
    }
    // sorted keys, and every value canonical
    assert(crate::value::keys_sorted(ps)) by {
        assert forall|i: int, j: int| 0 <= i < j < ps.len() implies lex_lt(
            #[trigger] ps[i].0,
            #[trigger] ps[j].0,
        ) by {}
    }
    assert forall|i: int| 0 <= i < ps.len() implies crate::value::wf((#[trigger] ps[i]).1) by {
        assert forall|k: int| 0 <= k < strings_vm(f.path@).len() implies crate::value::wf(
            #[trigger] strings_vm(f.path@)[k],
        ) by {}
    }
    // the lookups the decoder performs
    crate::access::lemma_lookup_model_at(ps, length_key(), 0);
    if has_md5 {
        crate::access::lemma_lookup_model_at(ps, md5sum_key(), 1);
    } else {
        crate::access::lemma_lookup_model_absent(ps, md5sum_key());
    }
    crate::access::lemma_lookup_model_at(ps, path_key(), ipath);
    assert(string_list_ok(ValueModel::List(strings_vm(f.path@)))) by {
        assert(forall|k: int|
            0 <= k < strings_vm(f.path@).len() ==> text_ok(#[trigger] strings_vm(f.path@)[k]));
    }
    assert(strings_match(f.path@, ValueModel::List(strings_vm(f.path@)))) by {
        assert forall|k: int| 0 <= k < f.path@.len() implies f.path@[k]@ == text_of(
            #[trigger] strings_vm(f.path@)[k],
        ) by {}
    }
}

/// An `InfoDict` record's model is canonical, has the record's shape,
/// and binds exactly the record's fields.
#[verifier::rlimit(100)]
pub proof fn lemma_info_dict_vm_props(d: InfoDict)
    ensures
        crate::value::wf(d.vm()),
        info_dict_ok(d.vm()),
        info_dict_matches(d, d.vm()),
{
    broadcast use vstd::utf8::encode_utf8_valid_utf8, vstd::utf8::encode_utf8_decode_utf8;

    reveal_with_fuel(crate::order::lex_lt, 16);
    let has_files = d.files is Some;
    let has_length = d.length is Some;
    let has_md5 = d.md5sum is Some;
    let has_priv = d.private is Some;
    let files_vm = ValueModel::List(Seq::new(d.files->0@.len(), |i: int| d.files->0@[i].vm()));
    let ps = pair_if(has_files, files_key(), files_vm) + pair_if(
        has_length,
        length_key(),
        uint_vm(d.length->0 as u64),
    ) + pair_if(has_md5, md5sum_key(), str_vm(d.md5sum->0@)) + seq![
        (name_key(), str_vm(d.name@)),
        (piece_length_key(), uint_vm(d.piece_length)),
        (pieces_key(), ValueModel::Bytes(d.pieces@)),
    ] + pair_if(has_priv, private_key(), bool_vm(d.private->0));
    assert(d.vm() == ValueModel::Dict(ps));
    let nf = if has_files {
        1int
    } else {
        0int
    };
    let nl = if has_length {
        1int
    } else {
        0int
    };
    let nm = if has_md5 {
        1int
    } else {
        0int
    };
    let iname = nf + nl + nm;
    if has_files {
        assert(ps[0] == (files_key(), files_vm));
    }
    if has_length {
        assert(ps[nf] == (length_key(), uint_vm(d.length->0 as u64)));
    }
    if has_md5 {
        assert(ps[nf + nl] == (md5sum_key(), str_vm(d.md5sum->0@)));
    }
    assert(ps[iname] == (name_key(), str_vm(d.name@)));
    assert(ps[iname + 1] == (piece_length_key(), uint_vm(d.piece_length)));
    assert(ps[iname + 2] == (pieces_key(), ValueModel::Bytes(d.pieces@)));
    if has_priv {
        assert(ps[iname + 3] == (private_key(), bool_vm(d.private->0)));
    }
    assert(ps.len() == iname + 3 + (if has_priv {
        1int
    } else {
        0int
    }));
    // the seven keys in ascending raw byte order, pairwise
    assert(lex_lt(files_key(), length_key()));
    assert(lex_lt(files_key(), md5sum_key()));
    assert(lex_lt(files_key(), name_key()));
    assert(lex_lt(files_key(), piece_length_key()));
    assert(lex_lt(files_key(), pieces_key()));
    assert(lex_lt(files_key(), private_key()));
    assert(lex_lt(length_key(), md5sum_key()));
    assert(lex_lt(length_key(), name_key()));
    assert(lex_lt(length_key(), piece_length_key()));
    assert(lex_lt(length_key(), pieces_key()));
    assert(lex_lt(length_key(), private_key()));
    assert(lex_lt(md5sum_key(), name_key()));
    assert(lex_lt(md5sum_key(), piece_length_key()));
    assert(lex_lt(md5sum_key(), pieces_key()));
    assert(lex_lt(md5sum_key(), private_key()));
    assert(lex_lt(name_key(), piece_length_key()));
    assert(lex_lt(name_key(), pieces_key()));
    assert(lex_lt(name_key(), private_key()));
    assert(lex_lt(piece_length_key(), pieces_key()));
    assert(lex_lt(piece_length_key(), private_key()));
    assert(lex_lt(pieces_key(), private_key()));
    assert forall|i: int, j: int| 0 <= i < j < ps.len() implies lex_lt(
        #[trigger] ps[i].0,
        #[trigger] ps[j].0,
    ) by {
        crate::order::lemma_lex_asym(ps[i].0, ps[j].0);
    }
    // every key below distinct from every key above it
    assert forall|i: int, j: int| 0 <= i < j < ps.len() implies (#[trigger] ps[i]).0 != (
    #[trigger] ps[j]).0 by {
        crate::order::lemma_lex_asym(ps[i].0, ps[j].0);
    }
    // every value is canonical
    assert forall|i: int| 0 <= i < ps.len() implies crate::value::wf((#[trigger] ps[i]).1) by {
        if has_files && i == 0 {
            let fitems = Seq::new(d.files->0@.len(), |i: int| d.files->0@[i].vm());
            assert forall|k: int| 0 <= k < fitems.len() implies crate::value::wf(
                #[trigger] fitems[k],
            ) by {
                lemma_file_info_vm_props(d.files->0@[k]);
            }
        }
        if i == iname || (has_md5 && i == nf + nl) {
            assert(crate::value::wf(str_vm(d.name@)));
            assert(crate::value::wf(str_vm(d.md5sum->0@)));
        }
    }
    // the lookups the decoder performs
    if has_files {
        crate::access::lemma_lookup_model_at(ps, files_key(), 0);
    } else {
        crate::access::lemma_lookup_model_absent(ps, files_key());
    }
    if has_length {
        crate::access::lemma_lookup_model_at(ps, length_key(), nf);
    } else {
        crate::access::lemma_lookup_model_absent(ps, length_key());
    }
    if has_md5 {
        crate::access::lemma_lookup_model_at(ps, md5sum_key(), nf + nl);
    } else {
        crate::access::lemma_lookup_model_absent(ps, md5sum_key());
    }
    crate::access::lemma_lookup_model_at(ps, name_key(), iname);
    crate::access::lemma_lookup_model_at(ps, piece_length_key(), iname + 1);
    crate::access::lemma_lookup_model_at(ps, pieces_key(), iname + 2);
    if has_priv {
        crate::access::lemma_lookup_model_at(ps, private_key(), iname + 3);
    } else {
        crate::access::lemma_lookup_model_absent(ps, private_key());
    }
    // each bound value has the right kind and carries the field
    if has_files {
        let fitems = Seq::new(d.files->0@.len(), |i: int| d.files->0@[i].vm());
        assert forall|k: int| 0 <= k < fitems.len() implies file_info_ok(#[trigger] fitems[k])
            && file_info_matches(d.files->0@[k], fitems[k]) by {
            lemma_file_info_vm_props(d.files->0@[k]);
        }
    }
    assert(d.length matches Some(n) ==> 0 <= int_value(uint_vm(n as u64)) <= usize::MAX);
    assert(text_of(str_vm(d.name@)) == d.name@);
    assert(d.private matches Some(b) ==> (b <==> int_value(bool_vm(b)) != 0));
}

/// The canonical round trip of the info dictionary: decoding the bytes
/// the encoder emits for an `InfoDict` yields exactly its model, a
/// dictionary of the record's shape binding exactly the record's
/// fields.  The length bound only asks that every byte string fit the
/// 64-bit lengths the wire format writes, which every record built at
/// run time satisfies.
pub proof fn lemma_info_dict_round_trip(d: InfoDict)
    requires
        crate::value::bounded(d.vm()),
    ensures
        crate::de::spec_from_bytes(enc(canon(d.vm()))) == Ok::<ValueModel, Error>(d.vm()),
        info_dict_ok(d.vm()),
        info_dict_matches(d, d.vm()),
{
    lemma_info_dict_vm_props(d);
    crate::value::lemma_wf_canon_id(d.vm());
    crate::roundtrip::lemma_round_trip(d.vm());
}

/// A `MetaInfo` record's model is canonical, has the record's shape,
/// and binds exactly the record's fields.
#[verifier::rlimit(100)]
pub proof fn lemma_meta_info_vm_props(t: MetaInfo)
    ensures
        crate::value::wf(t.vm()),
        meta_info_ok(t.vm()),
        meta_info_matches(t, t.vm()),
{
    broadcast use vstd::utf8::encode_utf8_valid_utf8, vstd::utf8::encode_utf8_decode_utf8;

    reveal_with_fuel(crate::order::lex_lt, 16);
    let has_alist = t.announce_list is Some;
    let has_comment = t.comment is Some;
    let has_created = t.created_by is Some;
    let has_date = t.creation_date is Some;
    let has_enc = t.encoding is Some;
    let tiers = Seq::new(
        t.announce_list->0@.len(),
        |i: int| ValueModel::List(strings_vm(t.announce_list->0@[i]@)),
    );
    let ps = seq![(announce_key(), str_vm(t.announce@))] + pair_if(
        has_alist,
        announce_list_key(),
        ValueModel::List(tiers),
    ) + pair_if(has_comment, comment_key(), str_vm(t.comment->0@)) + pair_if(
        has_created,
        created_by_key(),
        str_vm(t.created_by->0@),
    ) + pair_if(has_date, creation_date_key(), uint_vm(t.creation_date->0)) + pair_if(
        has_enc,
        encoding_key(),
        str_vm(t.encoding->0@),
    ) + seq![(info_key(), t.info.vm())];
    assert(t.vm() == ValueModel::Dict(ps));
    let na = if has_alist {
        1int
    } else {
        0int
    };
    let nc = if has_comment {
        1int
    } else {
        0int
    };
    let ncr = if has_created {
        1int
    } else {
        0int
    };
    let nd = if has_date {
        1int
    } else {
        0int
    };
    let ne = if has_enc {
        1int
    } else {
        0int
    };
    let iinfo = 1 + na + nc + ncr + nd + ne;
    assert(ps.len() == iinfo + 1);
    assert(ps[0] == (announce_key(), str_vm(t.announce@)));
    if has_alist {
        assert(ps[1] == (announce_list_key(), ValueModel::List(tiers)));
    }
    if has_comment {
        assert(ps[1 + na] == (comment_key(), str_vm(t.comment->0@)));
    }
    if has_created {
        assert(ps[1 + na + nc] == (created_by_key(), str_vm(t.created_by->0@)));
    }
    if has_date {
        assert(ps[1 + na + nc + ncr] == (creation_date_key(), uint_vm(t.creation_date->0)));
    }
    if has_enc {
        assert(ps[1 + na + nc + ncr + nd] == (encoding_key(), str_vm(t.encoding->0@)));
    }
    assert(ps[iinfo] == (info_key(), t.info.vm()));
    // the seven keys in ascending raw byte order, pairwise
    assert(lex_lt(announce_key(), announce_list_key()));
    assert(lex_lt(announce_key(), comment_key()));
    assert(lex_lt(announce_key(), created_by_key()));
    assert(lex_lt(announce_key(), creation_date_key()));
    assert(lex_lt(announce_key(), encoding_key()));
    assert(lex_lt(announce_key(), info_key()));
    assert(lex_lt(announce_list_key(), comment_key()));
    assert(lex_lt(announce_list_key(), created_by_key()));
    assert(lex_lt(announce_list_key(), creation_date_key()));
    assert(lex_lt(announce_list_key(), encoding_key()));
    assert(lex_lt(announce_list_key(), info_key()));
    assert(lex_lt(comment_key(), created_by_key()));
    assert(lex_lt(comment_key(), creation_date_key()));
    assert(lex_lt(comment_key(), encoding_key()));
    assert(lex_lt(comment_key(), info_key()));
    assert(lex_lt(created_by_key(), creation_date_key()));
    assert(lex_lt(created_by_key(), encoding_key()));
    assert(lex_lt(created_by_key(), info_key()));
    assert(lex_lt(creation_date_key(), encoding_key()));
    assert(lex_lt(creation_date_key(), info_key()));
    assert(lex_lt(encoding_key(), info_key()));
    assert forall|i: int, j: int| 0 <= i < j < ps.len() implies lex_lt(
        #[trigger] ps[i].0,
        #[trigger] ps[j].0,
    ) by {}
    assert forall|i: int, j: int| 0 <= i < j < ps.len() implies (#[trigger] ps[i]).0 != (
    #[trigger] ps[j]).0 by {
        crate::order::lemma_lex_asym(ps[i].0, ps[j].0);
    }
    // every value is canonical
    lemma_info_dict_vm_props(t.info);
    assert forall|i: int| 0 <= i < ps.len() implies crate::value::wf((#[trigger] ps[i]).1) by {
        if has_alist && i == 1 {
            assert forall|k: int| 0 <= k < tiers.len() implies crate::value::wf(
                #[trigger] tiers[k],
            ) by {
                assert(forall|m: int|
                    0 <= m < strings_vm(t.announce_list->0@[k]@).len()
                        ==> crate::value::wf(#[trigger] strings_vm(t.announce_list->0@[k]@)[m]));
            }
        }
    }
    // the lookups the decoder performs
    crate::access::lemma_lookup_model_at(ps, announce_key(), 0);
    if has_alist {
        crate::access::lemma_lookup_model_at(ps, announce_list_key(), 1);
        assert forall|k: int| 0 <= k < tiers.len() implies string_list_ok(#[trigger] tiers[k])
            && strings_match(t.announce_list->0@[k]@, tiers[k]) by {
            assert(forall|m: int|
                0 <= m < strings_vm(t.announce_list->0@[k]@).len() ==> text_ok(
                    #[trigger] strings_vm(t.announce_list->0@[k]@)[m],
                ));
            assert forall|m: int| 0 <= m < t.announce_list->0@[k]@.len() implies t.announce_list
                ->0@[k]@[m]@ == text_of(#[trigger] strings_vm(t.announce_list->0@[k]@)[m]) by {}
        }
    } else {
        crate::access::lemma_lookup_model_absent(ps, announce_list_key());
    }
    if has_comment {
        crate::access::lemma_lookup_model_at(ps, comment_key(), 1 + na);
    } else {
        crate::access::lemma_lookup_model_absent(ps, comment_key());
    }
    if has_created {
        crate::access::lemma_lookup_model_at(ps, created_by_key(), 1 + na + nc);
    } else {
        crate::access::lemma_lookup_model_absent(ps, created_by_key());
    }
    if has_date {
        crate::access::lemma_lookup_model_at(ps, creation_date_key(), 1 + na + nc + ncr);
    } else {
        crate::access::lemma_lookup_model_absent(ps, creation_date_key());
    }
    if has_enc {
        crate::access::lemma_lookup_model_at(ps, encoding_key(), 1 + na + nc + ncr + nd);
    } else {
        crate::access::lemma_lookup_model_absent(ps, encoding_key());
    }
    crate::access::lemma_lookup_model_at(ps, info_key(), iinfo);
}

/// The canonical round trip of the whole `.torrent` record: decoding
/// the bytes the encoder emits for a `MetaInfo` yields exactly its
/// model, a dictionary of the record's shape binding exactly the
/// record's fields.
pub proof fn lemma_meta_info_round_trip(t: MetaInfo)
    requires
        crate::value::bounded(t.vm()),
    ensures
        crate::de::spec_from_bytes(enc(canon(t.vm()))) == Ok::<ValueModel, Error>(t.vm()),
        meta_info_ok(t.vm()),
        meta_info_matches(t, t.vm()),
{
    lemma_meta_info_vm_props(t);
    crate::value::lemma_wf_canon_id(t.vm());
    crate::roundtrip::lemma_round_trip(t.vm());
}

/// Optional omission: a record whose optional field is absent encodes
/// without any dictionary pair under that field's key, here shown for
/// the `md5sum` field of the info dictionary.
pub proof fn lemma_optional_omitted(d: InfoDict)
    requires
        d.md5sum is None,
    ensures
        canon(d.vm()) matches ValueModel::Dict(ps) && forall|i: int|
            0 <= i < ps.len() ==> (#[trigger] ps[i]).0 != md5sum_key(),
{
    let m = d.vm();
    match m {
        ValueModel::Dict(ps0) => {
            crate::value::lemma_canon_pairs(ps0, ps0.len() as int);
            let cps = crate::value::canon_pairs_upto(ps0, ps0.len() as int);
            assert forall|j: int| 0 <= j < ps0.len() implies (#[trigger] ps0[j]).0
                != md5sum_key() by {
                assert(files_key() != md5sum_key());
                assert(length_key() != md5sum_key()) by {
                    assert(length_key()[0] != md5sum_key()[0]);
                }
                assert(name_key() != md5sum_key());
                assert(piece_length_key() != md5sum_key());
                assert(pieces_key() != md5sum_key()) by {
                    assert(pieces_key()[0] != md5sum_key()[0]);
                }
                assert(private_key() != md5sum_key());
            }
            assert forall|i: int| 0 <= i < cps.len() implies (#[trigger] cps[i]).0
                != md5sum_key() by {
                let j = choose|j: int|
                    0 <= j < ps0.len() && #[trigger] cps[i] == (ps0[j].0, canon(ps0[j].1));
                assert(ps0[j].0 != md5sum_key());
            }
        },
        _ => {},
    }
}

} // verus!
