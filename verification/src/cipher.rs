//! The substitution cipher: a password is the base64 text of a key, and the
//! key's byte at index `i` is what byte `i` becomes when encoded.

use std::collections::HashMap;
use vstd::prelude::*;
use crate::trusted::base64_decoded;
use crate::trusted::is_base64_char;
use crate::trusted::base64_decode;
use crate::trusted::base64_encode;
use crate::trusted::thread_rng;
use crate::trusted::shuffle_bytes;

verus! {

broadcast use vstd::std_specs::hash::group_hash_axioms;

/// The encoding table that a key yields: index `i` (taken modulo 256, as a
/// byte) maps to `key[i]`; where indices collide the later entry wins.
pub open spec fn key_encode_map(key: Seq<u8>) -> Map<u8, u8>
    decreases key.len(),
{
    if key.len() == 0 {
        Map::empty()
    } else {
        key_encode_map(key.drop_last()).insert((key.len() - 1) as u8, key.last())
    }
}

/// The decoding table that a key yields: `key[i]` maps back to `i` (as a
/// byte); where a byte occurs twice in the key the later index wins.
pub open spec fn key_decode_map(key: Seq<u8>) -> Map<u8, u8>
    decreases key.len(),
{
    if key.len() == 0 {
        Map::empty()
    } else {
        key_decode_map(key.drop_last()).insert(key.last(), (key.len() - 1) as u8)
    }
}

/// Every byte of `data` has an entry in `table`.
pub open spec fn substitutable(table: Map<u8, u8>, data: Seq<u8>) -> bool {
    forall|i: int| 0 <= i < data.len() ==> table.contains_key(#[trigger] data[i])
}

/// `data` with each byte replaced by its entry in `table`.
pub open spec fn substitute(table: Map<u8, u8>, data: Seq<u8>) -> Seq<u8> {
    data.map_values(|b: u8| table[b])
}

#[derive(Debug, Clone)]
pub struct Cipher {
    encode_password: HashMap<u8, u8>,
    decode_password: HashMap<u8, u8>,
}

impl Cipher {
    /// The table that `encode` applies.
    pub closed spec fn encode_map(&self) -> Map<u8, u8> {
        self.encode_password@
    }

    /// The table that `decode` applies.
    pub closed spec fn decode_map(&self) -> Map<u8, u8> {
        self.decode_password@
    }

    /// Builds the cipher for a key given as raw bytes.
    pub fn from_key(key: &[u8]) -> (res: Cipher)
        ensures
            res.encode_map() == key_encode_map(key@),
            res.decode_map() == key_decode_map(key@),
    {
        let mut encode_password: HashMap<u8, u8> = HashMap::new();
        let mut decode_password: HashMap<u8, u8> = HashMap::new();
        let mut index: usize = 0;
        while index < key.len()
            invariant
                index <= key@.len(),
                encode_password@ == key_encode_map(key@.subrange(0, index as int)),
                decode_password@ == key_decode_map(key@.subrange(0, index as int)),
            decreases key@.len() - index,
        {
            let value = key[index];
            let ghost prefix = key@.subrange(0, index as int);
            let ghost next = key@.subrange(0, index + 1);
            assert(next.drop_last() == prefix);
            encode_password.insert(index as u8, value);
            decode_password.insert(value, index as u8);
            index = index + 1;
        }
        assert(key@.subrange(0, key@.len() as int) == key@);
        Cipher { encode_password, decode_password }
    }

    /// Builds the cipher for a password, the base64 text of the key.
    /// A password that is not base64 is refused by the precondition
    /// (`try_new` tests it instead).
    pub fn new(password: String) -> (res: Cipher)
        requires
            base64_decoded(password@) is Some,
        ensures
            res.encode_map() == key_encode_map(base64_decoded(password@).unwrap()),
            res.decode_map() == key_decode_map(base64_decoded(password@).unwrap()),
    {
        let key = base64_decode(password.as_str()).unwrap();
        Cipher::from_key(key.as_slice())
    }

    /// Builds the cipher for a password if it is base64 text, else `None`.
    pub fn try_new(password: String) -> (res: Option<Cipher>)
        ensures
            res is None <==> base64_decoded(password@) is None,
            res matches Some(c) ==> {
                &&& c.encode_map() == key_encode_map(base64_decoded(password@).unwrap())
                &&& c.decode_map() == key_decode_map(base64_decoded(password@).unwrap())
            },
    {
        match base64_decode(password.as_str()) {
            Ok(_) => Some(Cipher::new(password)),
            Err(_) => None,
        }
    }

    /// A fresh random password: the base64 text of a random rearrangement of
    /// the bytes 0..=255.
    pub fn rand_password() -> (res: String)
        ensures
            base64_decoded(res@) matches Some(key) && is_permutation_key(key),
            res@.len() == 344,
            forall|i: int| 0 <= i < 342 ==> is_base64_char(#[trigger] res@[i]),
            res@[342] == '=' && res@[343] == '=',
    {
        let mut arr: Vec<u8> = Vec::new();
        let mut x: u16 = 0;
        while x < 256
            invariant
                x <= 256,
                arr@ == identity_key().take(x as int),
            decreases 256 - x,
        {
            arr.push(x as u8);
            x = x + 1;
            assert(arr@ == identity_key().take(x as int));
        }
        assert(arr@ == identity_key());
        let mut rng = thread_rng();
        shuffle_bytes(&mut arr, &mut rng);
        proof {
            vstd::seq_lib::to_multiset_len(arr@);
            vstd::seq_lib::to_multiset_len(identity_key());
        }
        base64_encode(arr.as_slice())
    }

    /// Appends the encoding of `data` to `buffer`.
    pub fn encode(&self, data: &[u8], buffer: &mut Vec<u8>)
        requires
            substitutable(self.encode_map(), data@),
        ensures
            final(buffer)@ == old(buffer)@ + substitute(self.encode_map(), data@),
    {
        Self::substitute_into(&self.encode_password, data, buffer);
    }

    /// Appends the decoding of `data` to `buffer`.
    pub fn decode(&self, data: &[u8], buffer: &mut Vec<u8>)
        requires
            substitutable(self.decode_map(), data@),
        ensures
            final(buffer)@ == old(buffer)@ + substitute(self.decode_map(), data@),
    {
        Self::substitute_into(&self.decode_password, data, buffer);
    }

    /// Whether every byte of `data` can be encoded.
    pub fn can_encode(&self, data: &[u8]) -> (res: bool)
        ensures
            res == substitutable(self.encode_map(), data@),
    {
        Self::covers(&self.encode_password, data)
    }

    /// Whether every byte of `data` can be decoded.
    pub fn can_decode(&self, data: &[u8]) -> (res: bool)
        ensures
            res == substitutable(self.decode_map(), data@),
    {
        Self::covers(&self.decode_password, data)
    }

    fn covers(table: &HashMap<u8, u8>, data: &[u8]) -> (res: bool)
        ensures
            res == substitutable(table@, data@),
    {
        let mut i: usize = 0;
        while i < data.len()
            invariant
                i <= data@.len(),
                forall|j: int| 0 <= j < i ==> table@.contains_key(#[trigger] data@[j]),
            decreases data@.len() - i,
        {
            if !table.contains_key(&data[i]) {
                return false;
            }
            i = i + 1;
        }
        true
    }

    fn substitute_into(table: &HashMap<u8, u8>, data: &[u8], buffer: &mut Vec<u8>)
        requires
            substitutable(table@, data@),
        ensures
            final(buffer)@ == old(buffer)@ + substitute(table@, data@),
    {
        let ghost start = buffer@;
        let mut i: usize = 0;
        while i < data.len()
            invariant
                i <= data@.len(),
                substitutable(table@, data@),
                buffer@ == start + substitute(table@, data@.take(i as int)),
            decreases data@.len() - i,
        {
            let b = data[i];
            assert(table@.contains_key(data@[i as int]));
            match table.get(&b) {
                Some(v) => buffer.push(*v),
                None => {},
            }
            i = i + 1;
            assert(data@.take(i as int) == data@.take(i - 1).push(b));
            assert(substitute(table@, data@.take(i as int)) == substitute(table@, data@.take(i - 1)).push(table@[b]));
        }
        assert(data@.take(data@.len() as int) == data@);
    }
}

/// The key 0, 1, ..., 255: every byte encodes to itself.
pub open spec fn identity_key() -> Seq<u8> {
    Seq::new(256, |i: int| i as u8)
}

/// `key` is a rearrangement of the bytes 0..=255.
pub open spec fn is_permutation_key(key: Seq<u8>) -> bool {
    key.to_multiset() == identity_key().to_multiset()
}

} // verus!

verus! {

/// Each byte has an entry in both tables, and each table undoes the other.
pub open spec fn tables_are_inverse(enc: Map<u8, u8>, dec: Map<u8, u8>) -> bool {
    forall|b: u8|
        #![trigger enc[b]]
        #![trigger dec[b]]
        enc.contains_key(b) && dec.contains_key(b) && dec[enc[b]] == b && enc[dec[b]] == b
}

impl Cipher {
    /// Encoding and decoding are defined on every byte and undo each other.
    pub open spec fn is_bijective(&self) -> bool {
        tables_are_inverse(self.encode_map(), self.decode_map())
    }
}

/// A permutation key has 256 bytes, no byte twice, and every byte once.
pub proof fn lemma_permutation_key_facts(key: Seq<u8>)
    requires
        is_permutation_key(key),
    ensures
        key.len() == 256,
        key.no_duplicates(),
        forall|b: u8| key.contains(b),
{
    broadcast use vstd::seq_lib::group_to_multiset_ensures;
    let id = identity_key();
    vstd::seq_lib::to_multiset_len(key);
    vstd::seq_lib::to_multiset_len(id);
    assert(id.no_duplicates());
    id.lemma_multiset_has_no_duplicates();
    key.lemma_multiset_has_no_duplicates_conv();
    assert forall|b: u8| key.contains(b) by {
        assert(id[b as int] == b);
        assert(id.contains(b));
        assert(id.to_multiset().count(b) > 0);
    }
}

/// For a key of at most 256 bytes, index `i` encodes to `key[i]`, and no
/// other byte has an entry.
pub proof fn lemma_key_encode_map(key: Seq<u8>)
    requires
        key.len() <= 256,
    ensures
        forall|b: u8|
            #![trigger key_encode_map(key).contains_key(b)]
            key_encode_map(key).contains_key(b) <==> (b as int) < key.len(),
        forall|b: u8|
            #![trigger key_encode_map(key)[b]]
            (b as int) < key.len() ==> key_encode_map(key)[b] == key[b as int],
    decreases key.len(),
{
    if key.len() > 0 {
        let prefix = key.drop_last();
        lemma_key_encode_map(prefix);
        let last = (key.len() - 1) as u8;
        assert(last as int == key.len() - 1);
        assert forall|b: u8| key_encode_map(key).contains_key(b) <==> (b as int) < key.len() by {
            assert(prefix.len() == key.len() - 1);
            assert(key_encode_map(prefix).contains_key(b) <==> (b as int) < prefix.len());
        }
        assert forall|b: u8| (b as int) < key.len() implies key_encode_map(key)[b] == key[b as int] by {
            if b != last {
                assert(key_encode_map(prefix).contains_key(b) <==> (b as int) < prefix.len());
                assert(key_encode_map(prefix)[b] == prefix[b as int]);
            }
        }
    }
}

/// For a key of at most 256 bytes with no byte twice, exactly the key's
/// bytes have a decoding entry, and `key[i]` decodes to `i`.
pub proof fn lemma_key_decode_map(key: Seq<u8>)
    requires
        key.len() <= 256,
        key.no_duplicates(),
    ensures
        forall|b: u8|
            #![trigger key_decode_map(key).contains_key(b)]
            key_decode_map(key).contains_key(b) <==> key.contains(b),
        forall|i: int|
            #![trigger key[i]]
            0 <= i < key.len() ==> key_decode_map(key)[key[i]] as int == i,
    decreases key.len(),
{
    if key.len() > 0 {
        let prefix = key.drop_last();
        assert(prefix.no_duplicates());
        lemma_key_decode_map(prefix);
        assert(key_decode_map(key) == key_decode_map(prefix).insert(key.last(), (key.len() - 1) as u8));
        assert forall|b: u8| key_decode_map(key).contains_key(b) <==> key.contains(b) by {
            assert(key_decode_map(prefix).contains_key(b) <==> prefix.contains(b));
            if b == key.last() {
                assert(key[key.len() - 1] == b);
                assert(key.contains(b));
            }
            if key.contains(b) && b != key.last() {
                let i = choose|i: int| 0 <= i < key.len() && key[i] == b;
                assert(prefix[i] == b);
                assert(prefix.contains(b));
            }
            if prefix.contains(b) {
                let i = choose|i: int| 0 <= i < prefix.len() && prefix[i] == b;
                assert(key[i] == b);
            }
        }
        assert forall|i: int| 0 <= i < key.len() implies key_decode_map(key)[key[i]] as int == i by {
            if i < key.len() - 1 {
                assert(prefix[i] == key[i]);
                assert(key[i] != key.last());
            }
        }
    }
}

/// The tables of a permutation key undo each other.
pub proof fn lemma_permutation_key_tables(key: Seq<u8>)
    requires
        is_permutation_key(key),
    ensures
        tables_are_inverse(key_encode_map(key), key_decode_map(key)),
{
    lemma_permutation_key_facts(key);
    lemma_key_encode_map(key);
    lemma_key_decode_map(key);
    let enc = key_encode_map(key);
    let dec = key_decode_map(key);
    assert forall|b: u8|
        enc.contains_key(b) && dec.contains_key(b) && dec[enc[b]] == b && enc[dec[b]] == b by {
        assert(enc.contains_key(b));
        assert(key.contains(b));
        assert(dec.contains_key(b));
        assert(enc[b] == key[b as int]);
        assert(dec[key[b as int]] as int == b as int);
        let i = choose|i: int| 0 <= i < key.len() && key[i] == b;
        assert(dec[key[i]] as int == i);
        let d = dec[b];
        assert(d as int == i);
        assert(enc[d] == key[d as int]);
    }
}

/// Where the tables undo each other, decoding an encoding gives the data
/// back, and encoding a decoding does too.
pub proof fn lemma_substitute_round_trip(enc: Map<u8, u8>, dec: Map<u8, u8>, data: Seq<u8>)
    requires
        tables_are_inverse(enc, dec),
    ensures
        substitutable(enc, data),
        substitutable(dec, data),
        substitutable(dec, substitute(enc, data)),
        substitutable(enc, substitute(dec, data)),
        substitute(dec, substitute(enc, data)) == data,
        substitute(enc, substitute(dec, data)) == data,
{
    assert(substitute(dec, substitute(enc, data)) =~= data);
    assert(substitute(enc, substitute(dec, data)) =~= data);
}

/// A cipher built from the password that `Cipher::rand_password` returns
/// (any permutation key) is bijective.
pub proof fn lemma_permutation_password_cipher(password: Seq<char>, c: Cipher)
    requires
        base64_decoded(password) matches Some(key) && is_permutation_key(key),
        c.encode_map() == key_encode_map(base64_decoded(password).unwrap()),
        c.decode_map() == key_decode_map(base64_decoded(password).unwrap()),
    ensures
        c.is_bijective(),
{
    lemma_permutation_key_tables(base64_decoded(password).unwrap());
}

/// With a bijective cipher, what one end encodes the other end decodes back
/// to the same bytes, in either direction.
pub proof fn lemma_cipher_round_trip(c: Cipher, data: Seq<u8>)
    requires
        c.is_bijective(),
    ensures
        substitutable(c.encode_map(), data),
        substitutable(c.decode_map(), data),
        substitute(c.decode_map(), substitute(c.encode_map(), data)) == data,
        substitute(c.encode_map(), substitute(c.decode_map(), data)) == data,
{
    lemma_substitute_round_trip(c.encode_map(), c.decode_map(), data);
}

} // verus!
