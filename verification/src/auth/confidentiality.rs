use crate::text::{append_decimal, spec_decimal};
use sspi::{EncryptionFlags, SecurityBufferRef, Sspi};
use vstd::prelude::*;
use vstd::string::StringExecFns;

verus! {

/// Why a message could not be sealed or unsealed.
#[derive(Debug)]
pub enum ConfidentialityError {
    /// A length does not fit the 16-bit field that carries it.
    OutOfRange,
    /// Fewer than four bytes remain where a block header is expected.
    TruncatedHeader,
    /// A block is longer than what remains of the message.
    TruncatedBlock { expected: usize, found: usize },
    /// The security package refused to seal or unseal.
    Sspi(sspi::Error),
}

/// What kind of error a [`ConfidentialityError`] is, with its lengths.
pub ghost enum ConfidentialityErrorView {
    OutOfRange,
    TruncatedHeader,
    TruncatedBlock { expected: nat, found: nat },
    Sspi,
}

impl View for ConfidentialityError {
    type V = ConfidentialityErrorView;

    open spec fn view(&self) -> ConfidentialityErrorView {
        match self {
            ConfidentialityError::OutOfRange => ConfidentialityErrorView::OutOfRange,
            ConfidentialityError::TruncatedHeader => ConfidentialityErrorView::TruncatedHeader,
            ConfidentialityError::TruncatedBlock { expected, found } => {
                ConfidentialityErrorView::TruncatedBlock {
                    expected: *expected as nat,
                    found: *found as nat,
                }
            },
            ConfidentialityError::Sspi(_) => ConfidentialityErrorView::Sspi,
        }
    }
}

/// The text of an error that the library itself detects; an error of the
/// security package has the text that sspi gives it.
pub open spec fn confidentiality_message(e: ConfidentialityErrorView) -> Seq<char> {
    match e {
        ConfidentialityErrorView::OutOfRange => "out of range integral type conversion attempted"@,
        ConfidentialityErrorView::TruncatedHeader => "truncated SSAS encryption-block header"@,
        ConfidentialityErrorView::TruncatedBlock { expected, found } => "truncated SSAS encryption block: expected "@
            + spec_decimal(expected) + " bytes, found "@ + spec_decimal(found),
        ConfidentialityErrorView::Sspi => Seq::empty(),
    }
}

/// The text of an sspi error, as its `Display` implementation writes it.
#[verifier::external_body]
fn sspi_error_text(e: &sspi::Error) -> String {
    format!("{}", e)
}

impl ConfidentialityError {
    /// The text of the error.
    pub fn message(&self) -> (r: String)
        ensures
            !(self@ is Sspi) ==> r@ == confidentiality_message(self@),
    {
        match self {
            ConfidentialityError::OutOfRange => String::from_str(
                "out of range integral type conversion attempted",
            ),
            ConfidentialityError::TruncatedHeader => String::from_str(
                "truncated SSAS encryption-block header",
            ),
            ConfidentialityError::TruncatedBlock { expected, found } => {
                let mut s = String::from_str("truncated SSAS encryption block: expected ");
                append_decimal(&mut s, *expected as u64);
                s.append(" bytes, found ");
                append_decimal(&mut s, *found as u64);
                s
            },
            ConfidentialityError::Sspi(e) => sspi_error_text(e),
        }
    }
}

/// The two little-endian bytes of a 16-bit length.
pub open spec fn le16_bytes(n: nat) -> Seq<u8> {
    seq![(n % 256) as u8, (n / 256) as u8]
}

/// The 16-bit little-endian number at `i`.
pub open spec fn le16_at(s: Seq<u8>, i: int) -> nat {
    (s[i] as nat) + 256 * (s[i + 1] as nat)
}

/// An encryption block: the lengths of the sealed data and of the
/// signature token, 16 bits each, little-endian, then the data, then the
/// token.
pub open spec fn spec_encryption_block(data: Seq<u8>, token: Seq<u8>) -> Seq<u8> {
    le16_bytes(data.len()) + le16_bytes(token.len()) + data + token
}

/// Splitting a sealed message into its blocks: the (data, token) pair of
/// each block in order, or the first framing error.
pub open spec fn spec_split_blocks(s: Seq<u8>) -> Result<
    Seq<(Seq<u8>, Seq<u8>)>,
    ConfidentialityErrorView,
>
    decreases s.len(),
{
    if s.len() == 0 {
        Ok(Seq::empty())
    } else if s.len() < 4 {
        Err(ConfidentialityErrorView::TruncatedHeader)
    } else {
        let data_len: int = le16_at(s, 0) as int;
        let token_len: int = le16_at(s, 2) as int;
        let block_len: int = 4 + data_len + token_len;
        if s.len() < block_len {
            Err(
                ConfidentialityErrorView::TruncatedBlock {
                    expected: block_len as nat,
                    found: s.len(),
                },
            )
        } else {
            match spec_split_blocks(s.subrange(block_len, s.len() as int)) {
                Err(e) => Err(e),
                Ok(rest) => Ok(
                    seq![(s.subrange(4, 4 + data_len), s.subrange(4 + data_len, block_len))]
                        + rest,
                ),
            }
        }
    }
}

/// Reading the block at the start of `s`: its data, its token and its whole
/// length, or the framing error that stops the reading there.
pub open spec fn spec_next_block(s: Seq<u8>) -> Result<
    (Seq<u8>, Seq<u8>, int),
    ConfidentialityErrorView,
> {
    if s.len() < 4 {
        Err(ConfidentialityErrorView::TruncatedHeader)
    } else {
        let data_len: int = le16_at(s, 0) as int;
        let token_len: int = le16_at(s, 2) as int;
        let block_len: int = 4 + data_len + token_len;
        if s.len() < block_len {
            Err(
                ConfidentialityErrorView::TruncatedBlock {
                    expected: block_len as nat,
                    found: s.len(),
                },
            )
        } else {
            Ok((s.subrange(4, 4 + data_len), s.subrange(4 + data_len, block_len), block_len))
        }
    }
}

/// Splitting bytes that are not empty reads the first block, then splits
/// what follows it.
pub proof fn lemma_split_first_block(s: Seq<u8>)
    requires
        s.len() > 0,
    ensures
        spec_split_blocks(s) == match spec_next_block(s) {
            Err(e) => Err(e),
            Ok((d, t, n)) => prepend_blocks(
                seq![(d, t)],
                spec_split_blocks(s.subrange(n, s.len() as int)),
            ),
        },
        spec_next_block(s) matches Ok((_, _, n)) ==> 4 <= n <= s.len(),
{
}

/// Reads the encryption block that starts at `pos`: its data, its token and
/// its whole length, header included. A header cut short, or a block longer
/// than the bytes that are left, is a framing error.
pub fn next_block(message: &[u8], pos: usize) -> (r: Result<
    (Vec<u8>, Vec<u8>, usize),
    ConfidentialityError,
>)
    requires
        pos <= message@.len(),
    ensures
        match spec_next_block(message@.subrange(pos as int, message@.len() as int)) {
            Ok((d, t, n)) => r matches Ok((dv, tv, nv)) && dv@ == d && tv@ == t && nv == n,
            Err(e) => r matches Err(x) && x@ == e,
        },
{
    let ghost s = message@.subrange(pos as int, message@.len() as int);
    let remaining = message.len() - pos;
    if remaining < 4 {
        return Err(ConfidentialityError::TruncatedHeader);
    }
    let data_length = message[pos] as usize + message[pos + 1] as usize * 256;
    let token_length = message[pos + 2] as usize + message[pos + 3] as usize * 256;
    assert(data_length == le16_at(s, 0));
    assert(token_length == le16_at(s, 2));
    let block_length = 4 + data_length + token_length;
    if remaining < block_length {
        return Err(
            ConfidentialityError::TruncatedBlock { expected: block_length, found: remaining },
        );
    }
    let data_end = pos + 4 + data_length;
    let data = copy_range(message, pos + 4, data_end);
    let token = copy_range(message, data_end, pos + block_length);
    assert(data@ =~= s.subrange(4, 4 + data_length));
    assert(token@ =~= s.subrange(4 + data_length, block_length as int));
    Ok((data, token, block_length))
}

/// Blocks read before a point, put in front of what the rest of the message
/// reads to.
pub open spec fn prepend_blocks(
    done: Seq<(Seq<u8>, Seq<u8>)>,
    rest: Result<Seq<(Seq<u8>, Seq<u8>)>, ConfidentialityErrorView>,
) -> Result<Seq<(Seq<u8>, Seq<u8>)>, ConfidentialityErrorView> {
    match rest {
        Ok(x) => Ok(done + x),
        Err(e) => Err(e),
    }
}

/// The number of data bytes in a sequence of blocks.
pub open spec fn total_data_len(blocks: Seq<(Seq<u8>, Seq<u8>)>) -> nat
    decreases blocks.len(),
{
    if blocks.len() == 0 {
        0
    } else {
        total_data_len(blocks.drop_last()) + blocks.last().0.len()
    }
}

/// Splitting a block written by [`encryption_block`] in front of any bytes
/// gives back its data and token, then the split of those bytes.
pub proof fn lemma_block_roundtrip(data: Seq<u8>, token: Seq<u8>, rest: Seq<u8>)
    requires
        data.len() <= 0xffff,
        token.len() <= 0xffff,
    ensures
        spec_split_blocks(spec_encryption_block(data, token) + rest) == prepend_blocks(
            seq![(data, token)],
            spec_split_blocks(rest),
        ),
{
    let s = spec_encryption_block(data, token) + rest;
    let block_len: int = 4 + data.len() as int + token.len() as int;
    assert(le16_at(s, 0) == data.len()) by {
        assert(s[0] == (data.len() % 256) as u8);
        assert(s[1] == (data.len() / 256) as u8);
    }
    assert(le16_at(s, 2) == token.len()) by {
        assert(s[2] == (token.len() % 256) as u8);
        assert(s[3] == (token.len() / 256) as u8);
    }
    assert(s.subrange(block_len, s.len() as int) =~= rest);
    assert(s.subrange(4, 4 + data.len() as int) =~= data);
    assert(s.subrange(4 + data.len() as int, block_len) =~= token);
    match spec_split_blocks(rest) {
        Ok(x) => {
            assert(seq![(data, token)] + x =~= seq![(data, token)] + x);
        },
        Err(_) => {},
    }
}

/// Frames sealed data and its signature token as one encryption block.
pub fn encryption_block(data: &[u8], token: &[u8]) -> (r: Vec<u8>)
    requires
        data@.len() <= 0xffff,
        token@.len() <= 0xffff,
    ensures
        r@ == spec_encryption_block(data@, token@),
{
    let data_len = data.len();
    let token_len = token.len();
    let mut block: Vec<u8> = Vec::new();
    block.push((data_len % 256) as u8);
    block.push((data_len / 256) as u8);
    block.push((token_len % 256) as u8);
    block.push((token_len / 256) as u8);
    let mut i: usize = 0;
    while i < data_len
        invariant
            data_len == data@.len(),
            i <= data_len,
            block@ == le16_bytes(data@.len()) + le16_bytes(token@.len()) + data@.subrange(
                0,
                i as int,
            ),
        decreases data_len - i,
    {
        block.push(data[i]);
        i = i + 1;
        assert(data@.subrange(0, i as int) =~= data@.subrange(0, i - 1).push(data@[i - 1]));
    }
    let mut j: usize = 0;
    while j < token_len
        invariant
            token_len == token@.len(),
            data_len == data@.len(),
            j <= token_len,
            block@ == le16_bytes(data@.len()) + le16_bytes(token@.len()) + data@
                + token@.subrange(0, j as int),
        decreases token_len - j,
    {
        block.push(token[j]);
        j = j + 1;
        assert(token@.subrange(0, j as int) =~= token@.subrange(0, j - 1).push(token@[j - 1]));
    }
    assert(data@.subrange(0, data_len as int) =~= data@);
    assert(token@.subrange(0, token_len as int) =~= token@);
    assert(block@ =~= spec_encryption_block(data@, token@));
    block
}

/// The size of the security trailer that NTLM appends to sealed data, from
/// `Sspi::query_context_sizes`.
///
/// sspi's NTLM package answers every such query with `Ok` and a trailer of
/// 16 bytes, whatever the state of the context.
#[verifier::external_body]
fn security_trailer(ntlm: &mut sspi::Ntlm) -> (r: Result<u32, sspi::Error>)
    ensures
        r is Ok,
        r matches Ok(n) ==> n == 16,
{
    match ntlm.query_context_sizes() {
        Ok(sizes) => Ok(sizes.security_trailer),
        Err(e) => Err(e),
    }
}

/// Seals data in place with `Sspi::encrypt_message`, writing the signature
/// into the token buffer.
///
/// The two buffers are handed to sspi as slices, so their lengths stay as
/// they were; what bytes they then hold depends on the session keys and the
/// sequence number of the context, and is not stated.
#[verifier::external_body]
fn seal(ntlm: &mut sspi::Ntlm, data: &mut Vec<u8>, token: &mut Vec<u8>) -> (r: Result<
    (),
    sspi::Error,
>)
    ensures
        final(data)@.len() == old(data)@.len(),
        final(token)@.len() == old(token)@.len(),
{
    let mut buffers = [
        SecurityBufferRef::token_buf(token.as_mut_slice()),
        SecurityBufferRef::data_buf(data.as_mut_slice()),
    ];
    match ntlm.encrypt_message(EncryptionFlags::empty(), &mut buffers) {
        Ok(_) => Ok(()),
        Err(e) => Err(e),
    }
}

/// Unseals data in place with `Sspi::decrypt_message`, which also checks
/// the signature in the token buffer.
///
/// The two buffers are handed to sspi as slices, so their lengths stay as
/// they were; what the data then holds depends on the session keys and the
/// sequence number of the context, and is not stated.
#[verifier::external_body]
fn unseal(ntlm: &mut sspi::Ntlm, data: &mut Vec<u8>, token: &mut Vec<u8>) -> (r: Result<
    (),
    sspi::Error,
>)
    ensures
        final(data)@.len() == old(data)@.len(),
        final(token)@.len() == old(token)@.len(),
{
    let mut buffers = [
        SecurityBufferRef::token_buf(token.as_mut_slice()),
        SecurityBufferRef::data_buf(data.as_mut_slice()),
    ];
    match ntlm.decrypt_message(&mut buffers) {
        Ok(_) => Ok(()),
        Err(e) => Err(e),
    }
}

/// Copies a range of bytes into a new vector.
fn copy_range(s: &[u8], start: usize, end: usize) -> (r: Vec<u8>)
    requires
        start <= end <= s@.len(),
    ensures
        r@ == s@.subrange(start as int, end as int),
{
    let mut v: Vec<u8> = Vec::new();
    let mut i: usize = start;
    while i < end
        invariant
            start <= i <= end <= s@.len(),
            v@ == s@.subrange(start as int, i as int),
        decreases end - i,
    {
        v.push(s[i]);
        i = i + 1;
        assert(s@.subrange(start as int, i as int) =~= s@.subrange(start as int, i - 1).push(
            s@[i - 1],
        ));
    }
    v
}

/// Seals a message as one encryption block: the plaintext is sealed in
/// place and framed with the signature that NTLM computes for it.
///
/// A plaintext longer than a 16-bit length field can describe is refused
/// before anything is sealed.
pub fn encrypt_ssas_message(ntlm: &mut sspi::Ntlm, plaintext: &[u8]) -> (r: Result<
    Vec<u8>,
    ConfidentialityError,
>)
    ensures
        plaintext@.len() > 0xffff ==> (r matches Err(e) && e@ is OutOfRange),
        r matches Ok(block) ==> exists|data: Seq<u8>, token: Seq<u8>|
            #![trigger spec_encryption_block(data, token)]
            data.len() == plaintext@.len() && token.len() == 16 && block@ == spec_encryption_block(
                data,
                token,
            ),
        r matches Err(e) ==> e@ is Sspi || (e@ is OutOfRange && plaintext@.len() > 0xffff),
{
    if plaintext.len() > 0xffff {
        return Err(ConfidentialityError::OutOfRange);
    }
    let trailer = match security_trailer(ntlm) {
        Ok(n) => n,
        Err(e) => {
            return Err(ConfidentialityError::Sspi(e));
        },
    };
    let token_length = trailer as usize;
    let mut data = copy_range(plaintext, 0, plaintext.len());
    let mut token: Vec<u8> = Vec::new();
    let mut i: usize = 0;
    while i < token_length
        invariant
            i <= token_length,
            token@.len() == i,
        decreases token_length - i,
    {
        token.push(0u8);
        i = i + 1;
    }
    match seal(ntlm, &mut data, &mut token) {
        Ok(()) => {},
        Err(e) => {
            return Err(ConfidentialityError::Sspi(e));
        },
    }
    let block = encryption_block(data.as_slice(), token.as_slice());
    assert(block@ == spec_encryption_block(data@, token@));
    Ok(block)
}

/// Parts joined in order.
pub open spec fn join_all(parts: Seq<Seq<u8>>) -> Seq<u8>
    decreases parts.len(),
{
    if parts.len() == 0 {
        Seq::empty()
    } else {
        join_all(parts.drop_last()) + parts.last()
    }
}

/// One part per block, each as long as its block's data.
pub open spec fn parts_fit_blocks(parts: Seq<Seq<u8>>, blocks: Seq<(Seq<u8>, Seq<u8>)>) -> bool {
    &&& parts.len() == blocks.len()
    &&& forall|i: int| 0 <= i < parts.len() ==> #[trigger] parts[i].len() == blocks[i].0.len()
}

/// Parts that fit the blocks join to as many bytes as the blocks hold data.
pub proof fn lemma_join_len(parts: Seq<Seq<u8>>, blocks: Seq<(Seq<u8>, Seq<u8>)>)
    requires
        parts_fit_blocks(parts, blocks),
    ensures
        join_all(parts).len() == total_data_len(blocks),
    decreases parts.len(),
{
    if parts.len() > 0 {
        let n = parts.len() - 1;
        assert(parts_fit_blocks(parts.drop_last(), blocks.drop_last())) by {
            assert forall|i: int| 0 <= i < n implies #[trigger] parts.drop_last()[i].len()
                == blocks.drop_last()[i].0.len() by {
                assert(parts.drop_last()[i] == parts[i]);
                assert(blocks.drop_last()[i] == blocks[i]);
            }
        }
        lemma_join_len(parts.drop_last(), blocks.drop_last());
        assert(parts[n].len() == blocks[n].0.len());
    }
}

/// The views of byte vectors.
pub open spec fn parts_view(parts: Seq<Vec<u8>>) -> Seq<Seq<u8>> {
    parts.map_values(|v: Vec<u8>| v@)
}

/// Joins parts in order.
pub fn join_blocks(parts: &Vec<Vec<u8>>) -> (r: Vec<u8>)
    ensures
        r@ == join_all(parts_view(parts@)),
{
    let mut joined: Vec<u8> = Vec::new();
    let mut i: usize = 0;
    assert(parts_view(parts@.take(0)) =~= Seq::<Seq<u8>>::empty());
    while i < parts.len()
        invariant
            i <= parts@.len(),
            joined@ == join_all(parts_view(parts@.take(i as int))),
        decreases parts@.len() - i,
    {
        let part = &parts[i];
        let ghost before = joined@;
        let mut k: usize = 0;
        while k < part.len()
            invariant
                k <= part@.len(),
                joined@ == before + part@.subrange(0, k as int),
            decreases part@.len() - k,
        {
            joined.push(part[k]);
            k = k + 1;
            assert(part@.subrange(0, k as int) =~= part@.subrange(0, k - 1).push(part@[k - 1]));
        }
        assert(part@.subrange(0, part@.len() as int) =~= part@);
        assert(parts_view(parts@.take(i + 1)).drop_last() =~= parts_view(parts@.take(i as int)));
        assert(parts_view(parts@.take(i + 1)).last() == part@);
        i = i + 1;
    }
    assert(parts@.take(i as int) =~= parts@);
    joined
}

/// Unseals a message block by block: each block's header is read, its data
/// unsealed and checked against its signature, and the unsealed data of the
/// blocks is joined in order. The first framing error, or the first block
/// that the security package refuses, ends the reading. An empty message
/// unseals to nothing.
///
/// What each block's data unseals to is the security package's, from the
/// session keys and the sequence number of the context: what is stated is
/// that the result joins, in order, one unsealed part per block, each as
/// long as that block's data.
pub fn decrypt_ssas_message(ntlm: &mut sspi::Ntlm, message: &[u8]) -> (r: Result<
    Vec<u8>,
    ConfidentialityError,
>)
    ensures
        message@.len() == 0 ==> (r matches Ok(p) && p@.len() == 0),
        r matches Ok(p) ==> (spec_split_blocks(message@) matches Ok(blocks) && exists|
            parts: Seq<Seq<u8>>,
        |
            #![trigger join_all(parts)]
            parts_fit_blocks(parts, blocks) && p@ == join_all(parts)),
        r matches Ok(p) ==> (spec_split_blocks(message@) matches Ok(blocks) && p@.len()
            == total_data_len(blocks)),
        r matches Err(e) ==> e@ is Sspi || spec_split_blocks(message@) == Err::<
            Seq<(Seq<u8>, Seq<u8>)>,
            ConfidentialityErrorView,
        >(e@),
        spec_split_blocks(message@) is Err ==> r is Err,
        message@.len() > 0 && spec_next_block(message@) is Err ==> (r matches Err(e) && e@
            == spec_next_block(message@)->Err_0),
{
    let ghost m = message@;
    let mut parts: Vec<Vec<u8>> = Vec::new();
    let mut pos: usize = 0;
    let ghost mut done: Seq<(Seq<u8>, Seq<u8>)> = Seq::empty();
    assert(m.subrange(0, m.len() as int) =~= m);
    assert(done + Seq::<(Seq<u8>, Seq<u8>)>::empty() =~= done);
    proof {
        match spec_split_blocks(m) {
            Ok(x) => {
                assert(done + x =~= x);
            },
            Err(_) => {},
        }
    }
    while pos < message.len()
        invariant
            m == message@,
            pos <= m.len(),
            spec_split_blocks(m) == prepend_blocks(
                done,
                spec_split_blocks(m.subrange(pos as int, m.len() as int)),
            ),
            parts_fit_blocks(parts_view(parts@), done),
            pos > 0 ==> spec_next_block(m) is Ok,
        decreases m.len() - pos,
    {
        let ghost s = m.subrange(pos as int, m.len() as int);
        proof {
            lemma_split_first_block(s);
        }
        let (mut data, mut token, block_length) = match next_block(message, pos) {
            Ok(b) => b,
            Err(e) => {
                return Err(e);
            },
        };
        let ghost block = (data@, token@);
        let next = pos + block_length;
        assert(s.subrange(block_length as int, s.len() as int) =~= m.subrange(
            next as int,
            m.len() as int,
        ));
        match unseal(ntlm, &mut data, &mut token) {
            Ok(()) => {},
            Err(e) => {
                return Err(ConfidentialityError::Sspi(e));
            },
        }
        let ghost old_parts = parts_view(parts@);
        parts.push(data);
        proof {
            let np = parts_view(parts@);
            let nd = done.push(block);
            assert(np =~= old_parts.push(np.last()));
            assert forall|i: int| 0 <= i < np.len() implies #[trigger] np[i].len()
                == nd[i].0.len() by {
                if i < old_parts.len() {
                    assert(np[i] == old_parts[i]);
                    assert(nd[i] == done[i]);
                }
            }
            assert(done.push(block).drop_last() =~= done);
            match spec_split_blocks(m.subrange(next as int, m.len() as int)) {
                Ok(x) => {
                    assert(done + (seq![block] + x) =~= done.push(block) + x);
                },
                Err(_) => {},
            }
            done = done.push(block);
        }
        pos = next;
    }
    proof {
        assert(m.subrange(pos as int, m.len() as int) =~= Seq::<u8>::empty());
        assert(done + Seq::<(Seq<u8>, Seq<u8>)>::empty() =~= done);
    }
    let plaintext = join_blocks(&parts);
    proof {
        lemma_join_len(parts_view(parts@), done);
        if m.len() == 0 {
            assert(parts_view(parts@).len() == 0);
        }
    }
    Ok(plaintext)
}

} // verus!
