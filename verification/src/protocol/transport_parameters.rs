use vstd::prelude::*;
use vstd::slice::slice_subrange;
use vstd::seq_lib::lemma_seq_contains_after_push;
use vstd::std_specs::convert::FromSpecImpl;
use smallvec::SmallVec;
use crate::errors::Error;
use crate::primitives::byte_order_primitives::{be_bytes, be_value, lemma_be_bytes_value, lemma_pow256_values};
use crate::protocol::readable::{Readable, collect_from_bytes, spec_collect, views};
use crate::protocol::version::{
    Version, lemma_collect_versions_append, lemma_version_round_trip, lemma_versions_round_trip,
};
use crate::protocol::writable::spec_write_all;
use crate::protocol::writable::{Writable, write_matches};

verus! {

/// The identifier of a transport parameter.
#[derive(Debug, Copy, Clone, Eq, PartialEq, Hash, Structural)]
pub enum TransportParameterId {
    InitialMaxStreamData,
    InitialMaxData,
    InitialMaxBidiStreams,
    IdleTimeout,
    PreferredAddress,
    MaxPacketSize,
    StatelessResetToken,
    AckDelayExponent,
    InitialMaxUniStreams,
    DisableMigration,
}

/// The number an identifier is sent as.
pub open spec fn spec_id_code(id: TransportParameterId) -> u16 {
    match id {
        TransportParameterId::InitialMaxStreamData => 0,
        TransportParameterId::InitialMaxData => 1,
        TransportParameterId::InitialMaxBidiStreams => 2,
        TransportParameterId::IdleTimeout => 3,
        TransportParameterId::PreferredAddress => 4,
        TransportParameterId::MaxPacketSize => 5,
        TransportParameterId::StatelessResetToken => 6,
        TransportParameterId::AckDelayExponent => 7,
        TransportParameterId::InitialMaxUniStreams => 8,
        TransportParameterId::DisableMigration => 9,
    }
}

/// The identifier a number stands for, or the error that it stands for none.
pub open spec fn spec_id_of_code(value: u16) -> Result<TransportParameterId, Error> {
    if value == 0 {
        Ok(TransportParameterId::InitialMaxStreamData)
    } else if value == 1 {
        Ok(TransportParameterId::InitialMaxData)
    } else if value == 2 {
        Ok(TransportParameterId::InitialMaxBidiStreams)
    } else if value == 3 {
        Ok(TransportParameterId::IdleTimeout)
    } else if value == 4 {
        Ok(TransportParameterId::PreferredAddress)
    } else if value == 5 {
        Ok(TransportParameterId::MaxPacketSize)
    } else if value == 6 {
        Ok(TransportParameterId::StatelessResetToken)
    } else if value == 7 {
        Ok(TransportParameterId::AckDelayExponent)
    } else if value == 8 {
        Ok(TransportParameterId::InitialMaxUniStreams)
    } else if value == 9 {
        Ok(TransportParameterId::DisableMigration)
    } else {
        Err(Error::InvalidTransportParameterId(value))
    }
}

impl View for TransportParameterId {
    type V = TransportParameterId;

    open spec fn view(&self) -> TransportParameterId {
        *self
    }
}

impl TransportParameterId {
    /// The number this identifier is sent as.
    pub fn code(self) -> (r: u16)
        ensures
            r == spec_id_code(self),
    {
        match self {
            TransportParameterId::InitialMaxStreamData => 0,
            TransportParameterId::InitialMaxData => 1,
            TransportParameterId::InitialMaxBidiStreams => 2,
            TransportParameterId::IdleTimeout => 3,
            TransportParameterId::PreferredAddress => 4,
            TransportParameterId::MaxPacketSize => 5,
            TransportParameterId::StatelessResetToken => 6,
            TransportParameterId::AckDelayExponent => 7,
            TransportParameterId::InitialMaxUniStreams => 8,
            TransportParameterId::DisableMigration => 9,
        }
    }

    /// The identifier a number stands for, or the error that it stands for none.
    pub fn try_from(value: u16) -> (r: Result<TransportParameterId, Error>)
        ensures
            r == spec_id_of_code(value),
    {
        match value {
            0 => Ok(TransportParameterId::InitialMaxStreamData),
            1 => Ok(TransportParameterId::InitialMaxData),
            2 => Ok(TransportParameterId::InitialMaxBidiStreams),
            3 => Ok(TransportParameterId::IdleTimeout),
            4 => Ok(TransportParameterId::PreferredAddress),
            5 => Ok(TransportParameterId::MaxPacketSize),
            6 => Ok(TransportParameterId::StatelessResetToken),
            7 => Ok(TransportParameterId::AckDelayExponent),
            8 => Ok(TransportParameterId::InitialMaxUniStreams),
            9 => Ok(TransportParameterId::DisableMigration),
            _ => Err(Error::InvalidTransportParameterId(value)),
        }
    }
}

impl From<TransportParameterId> for u16 {
    fn from(value: TransportParameterId) -> (r: u16) {
        value.code()
    }
}

impl FromSpecImpl<TransportParameterId> for u16 {
    open spec fn obeys_from_spec() -> bool {
        true
    }

    open spec fn from_spec(v: TransportParameterId) -> u16 {
        spec_id_code(v)
    }
}

impl Readable for TransportParameterId {
    open spec fn spec_read(bytes: Seq<u8>) -> Result<(TransportParameterId, nat), Error> {
        match u16::spec_read(bytes) {
            Err(e) => Err(e),
            Ok((value, n)) => match spec_id_of_code(value) {
                Ok(id) => Ok((id, n)),
                Err(e) => Err(e),
            },
        }
    }

    proof fn lemma_read_bounds(bytes: Seq<u8>) {
    }

    fn read(bytes: &[u8]) -> (res: Result<(TransportParameterId, usize), Error>) {
        let (id, n) = match u16::read(bytes) {
            Ok(read) => read,
            Err(e) => {
                return Err(e);
            },
        };
        match TransportParameterId::try_from(id) {
            Ok(id) => Ok((id, n)),
            Err(e) => Err(e),
        }
    }
}

impl Writable for TransportParameterId {
    open spec fn spec_write(value: TransportParameterId) -> Result<Seq<u8>, Error> {
        u16::spec_write(spec_id_code(value))
    }

    open spec fn write_requires(value: TransportParameterId) -> bool {
        true
    }

    fn write(&self, out: &mut Vec<u8>) -> (res: Result<(), Error>) {
        self.code().write(out)
    }
}

/// The bytes of a transport parameter's value, kept in a `SmallVec` with room for four bytes.
#[verifier::external_body]
pub struct TransportParameterValue {
    inner: SmallVec<[u8; 4]>,
}

/// The bytes a `TransportParameterValue` holds, in order.
pub uninterp spec fn parameter_value_bytes(value: TransportParameterValue) -> Seq<u8>;

impl View for TransportParameterValue {
    type V = Seq<u8>;

    open spec fn view(&self) -> Seq<u8> {
        parameter_value_bytes(*self)
    }
}

/// A `SmallVec` holding a copy of the bytes (`SmallVec::from_slice`).
#[verifier::external_body]
fn parameter_value_from_slice(bytes: &[u8]) -> (r: TransportParameterValue)
    ensures
        parameter_value_bytes(r) == bytes@,
{
    TransportParameterValue { inner: SmallVec::from_slice(bytes) }
}

/// The bytes held, as a slice (`SmallVec::as_slice`).
#[verifier::external_body]
fn parameter_value_as_slice(value: &TransportParameterValue) -> (r: &[u8])
    ensures
        r@ == parameter_value_bytes(*value),
{
    value.inner.as_slice()
}

/// A transport parameter: an identifier and the bytes of its value.
pub struct TransportParameter {
    pub id: TransportParameterId,
    pub value: TransportParameterValue,
}

/// What a transport parameter holds.
pub struct TransportParameterView {
    pub id: TransportParameterId,
    pub value: Seq<u8>,
}

impl View for TransportParameter {
    type V = TransportParameterView;

    open spec fn view(&self) -> TransportParameterView {
        TransportParameterView { id: self.id, value: self.value@ }
    }
}

/// What reading a transport parameter from the front of `bytes` gives: the identifier, the
/// length of the value, and the value, which is cut short where the bytes run out.
pub open spec fn spec_read_transport_parameter(bytes: Seq<u8>) -> Result<(TransportParameterView, nat), Error> {
    match TransportParameterId::spec_read(bytes) {
        Err(e) => Err(e),
        Ok((id, n0)) => match u16::spec_read(bytes.subrange(n0 as int, bytes.len() as int)) {
            Err(e) => Err(e),
            Ok((length, n1)) => {
                let start = n0 + n1;
                let end = if start + length <= bytes.len() { start + length } else { bytes.len() as int };
                Ok((TransportParameterView { id, value: bytes.subrange(start as int, end) }, end as nat))
            },
        },
    }
}

/// The bytes a transport parameter is written as: its identifier, the length of its value and
/// the value.
pub open spec fn spec_write_transport_parameter(parameter: TransportParameterView) -> Seq<u8> {
    be_bytes(spec_id_code(parameter.id) as nat, 2) + be_bytes(parameter.value.len(), 2) + parameter.value
}

impl Readable for TransportParameter {
    open spec fn spec_read(bytes: Seq<u8>) -> Result<(TransportParameterView, nat), Error> {
        spec_read_transport_parameter(bytes)
    }

    proof fn lemma_read_bounds(bytes: Seq<u8>) {
    }

    fn read(bytes: &[u8]) -> (res: Result<(TransportParameter, usize), Error>) {
        let (id, n0) = match TransportParameterId::read(bytes) {
            Ok(read) => read,
            Err(e) => {
                return Err(e);
            },
        };
        let (length, n1) = match u16::read(slice_subrange(bytes, n0, bytes.len())) {
            Ok(read) => read,
            Err(e) => {
                return Err(e);
            },
        };
        let start = n0 + n1;
        let end = if (length as usize) <= bytes.len() - start {
            start + length as usize
        } else {
            bytes.len()
        };
        let value = parameter_value_from_slice(slice_subrange(bytes, start, end));
        Ok((TransportParameter { id, value }, end))
    }
}

impl Writable for TransportParameter {
    open spec fn spec_write(value: TransportParameterView) -> Result<Seq<u8>, Error> {
        Ok(spec_write_transport_parameter(value))
    }

    open spec fn write_requires(value: TransportParameterView) -> bool {
        value.value.len() <= 0xffff
    }

    fn write(&self, out: &mut Vec<u8>) -> (res: Result<(), Error>) {
        let ghost start = out@;
        proof {
            lemma_pow256_values();
        }
        let _ = self.id.write(out);
        let value = parameter_value_as_slice(&self.value);
        let _ = (value.len() as u16).write(out);
        out.extend_from_slice(value);
        proof {
            assert(out@ =~= start + spec_write_transport_parameter(self@));
        }
        Ok(())
    }
}

/// The value of the last parameter in `parameters` with identifier `id`, if any.
pub open spec fn spec_lookup(parameters: Seq<TransportParameterView>, id: TransportParameterId) -> Option<Seq<u8>>
    decreases parameters.len(),
{
    if parameters.len() == 0 {
        None
    } else if parameters.last().id == id {
        Some(parameters.last().value)
    } else {
        spec_lookup(parameters.drop_last(), id)
    }
}

/// The identifier of the first parameter whose identifier an earlier one already has, if any.
pub open spec fn spec_first_duplicate(parameters: Seq<TransportParameterView>) -> Option<TransportParameterId>
    decreases parameters.len(),
{
    if parameters.len() == 0 {
        None
    } else {
        match spec_first_duplicate(parameters.drop_last()) {
            Some(id) => Some(id),
            None => if spec_lookup(parameters.drop_last(), parameters.last().id) is Some {
                Some(parameters.last().id)
            } else {
                None
            },
        }
    }
}

/// The bytes of parameters written one after another.
pub open spec fn spec_parameters_bytes(parameters: Seq<TransportParameterView>) -> Seq<u8>
    decreases parameters.len(),
{
    if parameters.len() == 0 {
        Seq::empty()
    } else {
        spec_write_transport_parameter(parameters[0]) + spec_parameters_bytes(parameters.drop_first())
    }
}

/// Whether every parameter's value is short enough for its length to be written in two bytes.
pub open spec fn spec_values_fit(parameters: Seq<TransportParameterView>) -> bool {
    forall|i: int| 0 <= i < parameters.len() ==> #[trigger] parameters[i].value.len() <= 0xffff
}

/// Looking an identifier up in parameters followed by others that do not have it finds what
/// the first parameters give.
pub proof fn lemma_lookup_append_missing(
    front: Seq<TransportParameterView>,
    back: Seq<TransportParameterView>,
    id: TransportParameterId,
)
    requires
        forall|i: int| 0 <= i < back.len() ==> #[trigger] back[i].id != id,
    ensures
        spec_lookup(front + back, id) == spec_lookup(front, id),
    decreases back.len(),
{
    if back.len() == 0 {
        assert(front + back =~= front);
    } else {
        assert((front + back).drop_last() =~= front + back.drop_last());
        assert((front + back).last() == back.last());
        lemma_lookup_append_missing(front, back.drop_last(), id);
    }
}

/// Parameters without repeated identifiers, followed by others without repeated identifiers and
/// sharing none with them, repeat none.
pub proof fn lemma_no_duplicate_append(front: Seq<TransportParameterView>, back: Seq<TransportParameterView>)
    requires
        spec_first_duplicate(front) is None,
        spec_first_duplicate(back) is None,
        forall|i: int| 0 <= i < back.len() ==> spec_lookup(front, #[trigger] back[i].id) is None,
    ensures
        spec_first_duplicate(front + back) is None,
    decreases back.len(),
{
    if back.len() == 0 {
        assert(front + back =~= front);
    } else {
        let init = back.drop_last();
        assert forall|i: int| 0 <= i < init.len() implies spec_lookup(front, #[trigger] init[i].id) is None by {
            assert(init[i] == back[i]);
        }
        lemma_no_duplicate_append(front, init);
        assert((front + back).drop_last() =~= front + init);
        assert((front + back).last() == back.last());
        let last = back.last();
        assert(spec_lookup(front, back[back.len() - 1].id) is None);
        lemma_lookup_missing_split(front, init, last.id);
    }
}

/// An identifier that neither of two runs of parameters has, the two together do not have.
proof fn lemma_lookup_missing_split(
    front: Seq<TransportParameterView>,
    back: Seq<TransportParameterView>,
    id: TransportParameterId,
)
    requires
        spec_lookup(front, id) is None,
        spec_lookup(back, id) is None,
    ensures
        spec_lookup(front + back, id) is None,
    decreases back.len(),
{
    if back.len() == 0 {
        assert(front + back =~= front);
    } else {
        assert((front + back).drop_last() =~= front + back.drop_last());
        assert((front + back).last() == back.last());
        lemma_lookup_missing_split(front, back.drop_last(), id);
    }
}

/// Parameters written one after another, and then one more, are those parameters' bytes and
/// then that one's.
pub proof fn lemma_parameters_bytes_push(parameters: Seq<TransportParameterView>, last: TransportParameterView)
    ensures
        spec_parameters_bytes(parameters.push(last)) == spec_parameters_bytes(parameters)
            + spec_write_transport_parameter(last),
    decreases parameters.len(),
{
    if parameters.len() == 0 {
        assert(parameters.push(last).drop_first() =~= Seq::<TransportParameterView>::empty());
        assert(parameters.push(last)[0] == last);
        assert(spec_parameters_bytes(Seq::<TransportParameterView>::empty()) == Seq::<u8>::empty());
        assert(spec_parameters_bytes(parameters) == Seq::<u8>::empty());
        assert(spec_parameters_bytes(parameters.push(last)) =~= spec_write_transport_parameter(last)
            + Seq::<u8>::empty());
    } else {
        lemma_parameters_bytes_push(parameters.drop_first(), last);
        assert(parameters.push(last).drop_first() =~= parameters.drop_first().push(last));
        assert(spec_parameters_bytes(parameters.push(last)) =~= spec_parameters_bytes(parameters)
            + spec_write_transport_parameter(last));
    }
}

/// Reading a transport parameter from the front of its bytes, whatever follows, gives it back.
pub proof fn lemma_transport_parameter_round_trip(parameter: TransportParameterView, rest: Seq<u8>)
    requires
        parameter.value.len() <= 0xffff,
    ensures
        spec_read_transport_parameter(spec_write_transport_parameter(parameter) + rest)
            == Ok::<(TransportParameterView, nat), Error>(
            (parameter, spec_write_transport_parameter(parameter).len()),
        ),
{
    lemma_pow256_values();
    let code = spec_id_code(parameter.id);
    let len = parameter.value.len();
    lemma_be_bytes_value(code as nat, 2);
    lemma_be_bytes_value(len, 2);
    let id_bytes = be_bytes(code as nat, 2);
    let len_bytes = be_bytes(len, 2);
    let whole = id_bytes + len_bytes + parameter.value + rest;
    assert(whole.take(2) =~= id_bytes);
    assert(whole.subrange(2, whole.len() as int).take(2) =~= len_bytes);
    assert(whole.subrange(4, 4 + len as int) =~= parameter.value);
    assert(id_bytes + len_bytes + parameter.value + rest =~= spec_write_transport_parameter(parameter) + rest);
}

/// Reading parameters back from the bytes they are written as gives them back.
pub proof fn lemma_parameters_round_trip(parameters: Seq<TransportParameterView>)
    requires
        spec_values_fit(parameters),
    ensures
        spec_collect::<TransportParameter>(spec_parameters_bytes(parameters))
            == Ok::<Seq<TransportParameterView>, Error>(parameters),
    decreases parameters.len(),
{
    if parameters.len() == 0 {
        assert(parameters =~= Seq::<TransportParameterView>::empty());
    } else {
        let first = parameters[0];
        let rest = parameters.drop_first();
        assert(spec_values_fit(rest)) by {
            assert forall|i: int| 0 <= i < rest.len() implies #[trigger] rest[i].value.len() <= 0xffff by {
                assert(rest[i] == parameters[i + 1]);
            }
        }
        lemma_parameters_round_trip(rest);
        let bytes = spec_parameters_bytes(parameters);
        let head = spec_write_transport_parameter(first);
        lemma_transport_parameter_round_trip(first, spec_parameters_bytes(rest));
        assert(bytes.subrange(head.len() as int, bytes.len() as int) =~= spec_parameters_bytes(rest));
        assert(seq![first] + rest =~= parameters);
    }
}

/// The value of the last parameter with identifier `id`, if any.
fn lookup<'a>(parameters: &'a [TransportParameter], id: TransportParameterId) -> (r: Option<&'a [u8]>)
    ensures
        match spec_lookup(views(parameters@), id) {
            Some(value) => r matches Some(bytes) && bytes@ == value,
            None => r is None,
        },
{
    let mut found: Option<&[u8]> = None;
    let mut i: usize = 0;
    while i < parameters.len()
        invariant
            i <= parameters@.len(),
            match spec_lookup(views(parameters@.take(i as int)), id) {
                Some(value) => found matches Some(bytes) && bytes@ == value,
                None => found is None,
            },
        decreases parameters.len() - i,
    {
        proof {
            assert(views(parameters@.take(i + 1)).drop_last() =~= views(parameters@.take(i as int)));
            assert(views(parameters@.take(i + 1)).last() == parameters@[i as int]@);
        }
        if parameters[i].id == id {
            found = Some(parameter_value_as_slice(&parameters[i].value));
        }
        i = i + 1;
    }
    proof {
        assert(parameters@.take(parameters@.len() as int) =~= parameters@);
    }
    found
}

/// The error that the first repeated identifier gives, if any.
fn check_duplicates(parameters: &[TransportParameter]) -> (r: Result<(), Error>)
    ensures
        match spec_first_duplicate(views(parameters@)) {
            Some(id) => r == Err::<(), Error>(Error::DuplicateTransportParameter(spec_id_code(id))),
            None => r is Ok,
        },
{
    let mut i: usize = 0;
    while i < parameters.len()
        invariant
            i <= parameters@.len(),
            spec_first_duplicate(views(parameters@.take(i as int))) is None,
        decreases parameters.len() - i,
    {
        let seen = slice_subrange(parameters, 0, i);
        let id = parameters[i].id;
        proof {
            assert(seen@ =~= parameters@.take(i as int));
            assert(views(parameters@.take(i + 1)).drop_last() =~= views(parameters@.take(i as int)));
            assert(views(parameters@.take(i + 1)).last() == parameters@[i as int]@);
        }
        if lookup(seen, id).is_some() {
            proof {
                assert(views(parameters@).take(i + 1) =~= views(parameters@.take(i + 1)));
                lemma_first_duplicate_prefix(views(parameters@), i + 1);
            }
            return Err(Error::DuplicateTransportParameter(id.code()));
        }
        i = i + 1;
    }
    proof {
        assert(parameters@.take(parameters@.len() as int) =~= parameters@);
    }
    Ok(())
}

/// Once a prefix of the parameters repeats an identifier, the parameters repeat the same one
/// first.
proof fn lemma_first_duplicate_prefix(parameters: Seq<TransportParameterView>, k: int)
    requires
        0 <= k <= parameters.len(),
        spec_first_duplicate(parameters.take(k)) is Some,
    ensures
        spec_first_duplicate(parameters) == spec_first_duplicate(parameters.take(k)),
    decreases parameters.len() - k,
{
    if k == parameters.len() {
        assert(parameters.take(k) =~= parameters);
    } else {
        assert(parameters.take(k + 1).drop_last() =~= parameters.take(k));
        lemma_first_duplicate_prefix(parameters, k + 1);
    }
}

/// Message parameters: what a transport parameters block starts with, which depends on the
/// handshake message it travels in.
pub trait MessageParameters: Readable + Writable {
    /// The values that read back as they were written.
    spec fn spec_round_trips(value: <Self as View>::V) -> bool;

    /// Writing message parameters that read back as written, and reading the bytes back, gives
    /// them again and reads the bytes written, whatever follows.
    proof fn lemma_message_round_trip(value: <Self as View>::V, rest: Seq<u8>)
        requires
            Self::spec_round_trips(value),
            Self::write_requires(value),
            Self::spec_write(value) is Ok,
        ensures
            Self::spec_read(Self::spec_write(value)->Ok_0 + rest) == Ok::<(<Self as View>::V, nat), Error>(
                (value, Self::spec_write(value)->Ok_0.len()),
            ),
    ;
}

/// The message parameters of a client hello: the version the client first tried.
#[derive(Debug, Clone, Eq, PartialEq)]
pub struct ClientHelloMessageParameters {
    pub initial_version: Version,
}

impl View for ClientHelloMessageParameters {
    type V = Version;

    open spec fn view(&self) -> Version {
        self.initial_version
    }
}

impl Readable for ClientHelloMessageParameters {
    open spec fn spec_read(bytes: Seq<u8>) -> Result<(Version, nat), Error> {
        Version::spec_read(bytes)
    }

    proof fn lemma_read_bounds(bytes: Seq<u8>) {
    }

    fn read(bytes: &[u8]) -> (res: Result<(ClientHelloMessageParameters, usize), Error>) {
        match Version::read(bytes) {
            Ok((initial_version, n)) => Ok((ClientHelloMessageParameters { initial_version }, n)),
            Err(e) => Err(e),
        }
    }
}

impl Writable for ClientHelloMessageParameters {
    open spec fn spec_write(value: Version) -> Result<Seq<u8>, Error> {
        Version::spec_write(value)
    }

    open spec fn write_requires(value: Version) -> bool {
        true
    }

    fn write(&self, out: &mut Vec<u8>) -> (res: Result<(), Error>) {
        self.initial_version.write(out)
    }
}

impl MessageParameters for ClientHelloMessageParameters {
    open spec fn spec_round_trips(value: Version) -> bool {
        true
    }

    proof fn lemma_message_round_trip(value: Version, rest: Seq<u8>) {
        lemma_version_round_trip(value, rest);
    }
}

/// The message parameters of the server's encrypted extensions: the version negotiated and the
/// versions the server supports, each once.
#[derive(Debug, Clone, Eq, PartialEq)]
pub struct EncryptedExtensionsMessageParameters {
    pub negotiated_version: Version,
    pub supported_versions: Vec<Version>,
}

/// What encrypted extensions message parameters hold.
pub struct EncryptedExtensionsView {
    pub negotiated_version: Version,
    pub supported_versions: Seq<Version>,
}

impl View for EncryptedExtensionsMessageParameters {
    type V = EncryptedExtensionsView;

    open spec fn view(&self) -> EncryptedExtensionsView {
        EncryptedExtensionsView {
            negotiated_version: self.negotiated_version,
            supported_versions: self.supported_versions@,
        }
    }
}

/// The versions in order, each only where it first occurs.
pub open spec fn spec_dedup(versions: Seq<Version>) -> Seq<Version>
    decreases versions.len(),
{
    if versions.len() == 0 {
        Seq::empty()
    } else if versions.drop_last().contains(versions.last()) {
        spec_dedup(versions.drop_last())
    } else {
        spec_dedup(versions.drop_last()).push(versions.last())
    }
}

/// Dropping repeats keeps exactly the versions there are.
proof fn lemma_dedup_contains(versions: Seq<Version>, v: Version)
    ensures
        spec_dedup(versions).contains(v) == versions.contains(v),
    decreases versions.len(),
{
    if versions.len() > 0 {
        let init = versions.drop_last();
        lemma_dedup_contains(init, v);
        assert(init.push(versions.last()) =~= versions);
        lemma_seq_contains_after_push(init, versions.last(), v);
        lemma_seq_contains_after_push(spec_dedup(init), versions.last(), v);
    }
}

/// Versions without repeats are left as they are.
pub proof fn lemma_dedup_no_duplicates(versions: Seq<Version>)
    requires
        versions.no_duplicates(),
    ensures
        spec_dedup(versions) == versions,
    decreases versions.len(),
{
    if versions.len() > 0 {
        let init = versions.drop_last();
        assert(init.no_duplicates());
        lemma_dedup_no_duplicates(init);
        assert(!init.contains(versions.last())) by {
            if init.contains(versions.last()) {
                let i = choose|i: int| 0 <= i < init.len() && init[i] == versions.last();
                assert(versions[i] == versions[versions.len() - 1]);
            }
        }
        assert(init.push(versions.last()) =~= versions);
    }
}

/// The versions in order, each only where it first occurs, in a new vector.
fn dedup_versions(versions: &Vec<Version>) -> (r: Vec<Version>)
    ensures
        r@ == spec_dedup(versions@),
{
    let mut out: Vec<Version> = Vec::new();
    let mut i: usize = 0;
    while i < versions.len()
        invariant
            i <= versions@.len(),
            out@ == spec_dedup(versions@.take(i as int)),
        decreases versions.len() - i,
    {
        let v = versions[i];
        let mut seen = false;
        let mut j: usize = 0;
        while j < out.len()
            invariant
                j <= out@.len(),
                seen == out@.take(j as int).contains(v),
            decreases out.len() - j,
        {
            proof {
                assert(out@.take(j + 1) =~= out@.take(j as int).push(out@[j as int]));
                lemma_seq_contains_after_push(out@.take(j as int), out@[j as int], v);
            }
            if out[j].0 == v.0 {
                seen = true;
            }
            j = j + 1;
        }
        proof {
            assert(out@.take(out@.len() as int) =~= out@);
            assert(versions@.take(i + 1).drop_last() =~= versions@.take(i as int));
            assert(versions@.take(i + 1).last() == v);
            lemma_dedup_contains(versions@.take(i as int), v);
        }
        if !seen {
            out.push(v);
        }
        i = i + 1;
    }
    proof {
        assert(versions@.take(versions@.len() as int) =~= versions@);
    }
    out
}

/// What reading encrypted extensions message parameters gives: the negotiated version, then the
/// number of bytes of supported versions, and the supported versions in those bytes (cut short
/// where the bytes run out), each once.
pub open spec fn spec_read_encrypted_extensions(bytes: Seq<u8>) -> Result<(EncryptedExtensionsView, nat), Error> {
    match Version::spec_read(bytes) {
        Err(e) => Err(e),
        Ok((negotiated_version, n0)) => match u32::spec_read(bytes.subrange(n0 as int, bytes.len() as int)) {
            Err(e) => Err(e),
            Ok((count, n1)) => {
                let start = n0 + n1;
                let end = if start + count <= bytes.len() { start + count } else { bytes.len() as int };
                match spec_collect::<Version>(bytes.subrange(start as int, end)) {
                    Err(e) => Err(e),
                    Ok(versions) => Ok(
                        (
                            EncryptedExtensionsView {
                                negotiated_version,
                                supported_versions: spec_dedup(versions),
                            },
                            end as nat,
                        ),
                    ),
                }
            },
        },
    }
}

impl Readable for EncryptedExtensionsMessageParameters {
    open spec fn spec_read(bytes: Seq<u8>) -> Result<(EncryptedExtensionsView, nat), Error> {
        spec_read_encrypted_extensions(bytes)
    }

    proof fn lemma_read_bounds(bytes: Seq<u8>) {
    }

    fn read(bytes: &[u8]) -> (res: Result<(EncryptedExtensionsMessageParameters, usize), Error>) {
        let (negotiated_version, n0) = match Version::read(bytes) {
            Ok(read) => read,
            Err(e) => {
                return Err(e);
            },
        };
        let (count, n1) = match u32::read(slice_subrange(bytes, n0, bytes.len())) {
            Ok(read) => read,
            Err(e) => {
                return Err(e);
            },
        };
        let start = n0 + n1;
        let end = if (count as usize) <= bytes.len() - start {
            start + count as usize
        } else {
            bytes.len()
        };
        let versions = match collect_from_bytes::<Version>(slice_subrange(bytes, start, end)) {
            Ok(versions) => versions,
            Err(e) => {
                return Err(e);
            },
        };
        proof {
            assert(views(versions@) =~= versions@);
        }
        let supported_versions = dedup_versions(&versions);
        Ok((EncryptedExtensionsMessageParameters { negotiated_version, supported_versions }, end))
    }
}

impl Writable for EncryptedExtensionsMessageParameters {
    open spec fn spec_write(value: EncryptedExtensionsView) -> Result<Seq<u8>, Error> {
        Ok(
            Version::spec_write(value.negotiated_version)->Ok_0 + be_bytes(4 * value.supported_versions.len(), 4)
                + spec_write_all::<Version>(value.supported_versions)->Ok_0,
        )
    }

    /// The number of bytes of supported versions must fit in four bytes.
    open spec fn write_requires(value: EncryptedExtensionsView) -> bool {
        4 * value.supported_versions.len() <= 0xffff_ffff
    }

    fn write(&self, out: &mut Vec<u8>) -> (res: Result<(), Error>) {
        let ghost start = out@;
        proof {
            lemma_pow256_values();
            lemma_versions_round_trip(self.supported_versions@);
        }
        let _ = self.negotiated_version.write(out);
        let len = self.supported_versions.len() as u32;
        let _ = (len * 4).write(out);
        let _ = self.supported_versions.write(out);
        proof {
            assert(out@ =~= start + (Version::spec_write(self.negotiated_version)->Ok_0 + be_bytes(
                4 * self.supported_versions@.len(),
                4,
            ) + spec_write_all::<Version>(self.supported_versions@)->Ok_0));
        }
        Ok(())
    }
}

impl MessageParameters for EncryptedExtensionsMessageParameters {
    /// A set of versions holds each version once.
    open spec fn spec_round_trips(value: EncryptedExtensionsView) -> bool {
        value.supported_versions.no_duplicates()
    }

    proof fn lemma_message_round_trip(value: EncryptedExtensionsView, rest: Seq<u8>) {
        lemma_pow256_values();
        let version_bytes = Version::spec_write(value.negotiated_version)->Ok_0;
        let count = 4 * value.supported_versions.len();
        lemma_versions_round_trip(value.supported_versions);
        let versions = spec_write_all::<Version>(value.supported_versions)->Ok_0;
        let count_bytes = be_bytes(count, 4);
        lemma_be_bytes_value(count, 4);
        let tail = count_bytes + versions + rest;
        lemma_version_round_trip(value.negotiated_version, tail);
        let whole = version_bytes + count_bytes + versions + rest;
        assert(whole =~= version_bytes + tail);
        assert(whole.subrange(4, whole.len() as int).take(4) =~= count_bytes);
        assert(whole.subrange(8, 8 + count as int) =~= versions);
        lemma_dedup_no_duplicates(value.supported_versions);
        assert(Self::spec_write(value)->Ok_0 + rest =~= whole);
    }
}

/// Whether an identifier belongs to the parameters that only one side of a connection sends.
pub open spec fn spec_is_role_specific(id: TransportParameterId) -> bool {
    id == TransportParameterId::StatelessResetToken || id == TransportParameterId::PreferredAddress
}

/// The transport parameters that only one side of a connection (client or server) sends.
pub trait RoleSpecificTransportParameters: View + Sized {
    /// What reading the role-specific values from the parameters gives.
    spec fn spec_from_parameters(parameters: Seq<TransportParameterView>) -> Result<<Self as View>::V, Error>;

    /// The parameters that adding the role-specific values gives, or the error.
    spec fn spec_added(value: <Self as View>::V) -> Result<Seq<TransportParameterView>, Error>;

    /// What the type holds of its values.
    spec fn spec_well_formed(value: <Self as View>::V) -> bool;

    /// Reads the role-specific values from the parameters.
    fn from_transport_parameters(parameters: &[TransportParameter]) -> (r: Result<Self, Error>)
        ensures
            match Self::spec_from_parameters(views(parameters@)) {
                Ok(value) => r matches Ok(v) && v@ == value && Self::spec_well_formed(value),
                Err(e) => r matches Err(re) && re == e,
            },
    ;

    /// Adds the parameters for the role-specific values.
    fn add_transport_parameters(&self, parameters: &mut Vec<TransportParameter>) -> (r: Result<(), Error>)
        requires
            Self::spec_well_formed(self@),
        ensures
            match Self::spec_added(self@) {
                Ok(added) => r is Ok && views(final(parameters)@) == views(old(parameters)@) + added,
                Err(e) => r == Err::<(), Error>(e),
            },
    ;

    /// Reading back the parameters that well-formed values add, behind parameters with other
    /// identifiers, gives the values again; the parameters added use role-specific identifiers,
    /// each once.
    proof fn lemma_role_round_trip(value: <Self as View>::V, others: Seq<TransportParameterView>)
        requires
            Self::spec_well_formed(value),
            Self::spec_added(value) is Ok,
            forall|i: int| 0 <= i < others.len() ==> !spec_is_role_specific(#[trigger] others[i].id),
        ensures
            Self::spec_from_parameters(others + Self::spec_added(value)->Ok_0) == Ok::<<Self as View>::V, Error>(value),
            spec_first_duplicate(Self::spec_added(value)->Ok_0) is None,
            spec_values_fit(Self::spec_added(value)->Ok_0),
            forall|i: int| 0 <= i < Self::spec_added(value)->Ok_0.len()
                ==> spec_is_role_specific(#[trigger] Self::spec_added(value)->Ok_0[i].id),
    ;
}

/// The server's own transport parameters.
#[derive(Debug, Clone, Eq, PartialEq)]
pub struct ServerSpecificTransportParameters {
    pub stateless_reset_token: Option<[u8; 16]>,
    pub preferred_address: Option<()>,
}

/// What the server's own transport parameters hold.
pub struct ServerSpecificView {
    pub stateless_reset_token: Option<Seq<u8>>,
    pub preferred_address: Option<()>,
}

impl View for ServerSpecificTransportParameters {
    type V = ServerSpecificView;

    open spec fn view(&self) -> ServerSpecificView {
        ServerSpecificView {
            stateless_reset_token: match self.stateless_reset_token {
                Some(token) => Some(token@),
                None => None,
            },
            preferred_address: self.preferred_address,
        }
    }
}

/// A stateless reset token read from the front of a parameter's value, which must hold sixteen
/// bytes.
fn read_token(bytes: &[u8]) -> (r: Result<[u8; 16], Error>)
    ensures
        bytes@.len() >= 16 ==> (r matches Ok(token) && token@ == bytes@.take(16)),
        bytes@.len() < 16 ==> r == Err::<[u8; 16], Error>(Error::FailedToReadBytes),
{
    if bytes.len() < 16 {
        return Err(Error::FailedToReadBytes);
    }
    let mut token = [0u8; 16];
    let mut i: usize = 0;
    while i < 16
        invariant
            bytes@.len() >= 16,
            i <= 16,
            forall|j: int| 0 <= j < i ==> token@[j] == bytes@[j],
        decreases 16 - i,
    {
        token[i] = bytes[i];
        i = i + 1;
    }
    proof {
        assert(token@ =~= bytes@.take(16));
    }
    Ok(token)
}

impl RoleSpecificTransportParameters for ServerSpecificTransportParameters {
    /// The token is read from the stateless reset token parameter, if there is one; the preferred
    /// address is there when its parameter is.
    open spec fn spec_from_parameters(parameters: Seq<TransportParameterView>) -> Result<ServerSpecificView, Error> {
        let token = match spec_lookup(parameters, TransportParameterId::StatelessResetToken) {
            None => Ok(None),
            Some(value) => if value.len() >= 16 {
                Ok(Some(value.take(16)))
            } else {
                Err(Error::FailedToReadBytes)
            },
        };
        match token {
            Err(e) => Err(e),
            Ok(token) => Ok(
                ServerSpecificView {
                    stateless_reset_token: token,
                    preferred_address: if spec_lookup(parameters, TransportParameterId::PreferredAddress) is Some {
                        Some(())
                    } else {
                        None
                    },
                },
            ),
        }
    }

    open spec fn spec_added(value: ServerSpecificView) -> Result<Seq<TransportParameterView>, Error> {
        Ok(
            match value.stateless_reset_token {
                Some(token) => seq![TransportParameterView { id: TransportParameterId::StatelessResetToken, value: token }],
                None => Seq::empty(),
            } + match value.preferred_address {
                Some(_) => seq![TransportParameterView { id: TransportParameterId::PreferredAddress, value: Seq::empty() }],
                None => Seq::empty(),
            },
        )
    }

    /// A stateless reset token has sixteen bytes.
    open spec fn spec_well_formed(value: ServerSpecificView) -> bool {
        value.stateless_reset_token matches Some(token) ==> token.len() == 16
    }

    fn from_transport_parameters(parameters: &[TransportParameter]) -> (r: Result<Self, Error>) {
        let stateless_reset_token = match lookup(parameters, TransportParameterId::StatelessResetToken) {
            Some(bytes) => match read_token(bytes) {
                Ok(token) => Some(token),
                Err(e) => {
                    return Err(e);
                },
            },
            None => None,
        };
        let preferred_address = match lookup(parameters, TransportParameterId::PreferredAddress) {
            Some(_) => Some(()),
            None => None,
        };
        Ok(ServerSpecificTransportParameters { stateless_reset_token, preferred_address })
    }

    fn add_transport_parameters(&self, parameters: &mut Vec<TransportParameter>) -> (r: Result<(), Error>) {
        let ghost start = parameters@;
        if let Some(token) = &self.stateless_reset_token {
            let parameter = TransportParameter {
                id: TransportParameterId::StatelessResetToken,
                value: parameter_value_from_slice(token.as_slice()),
            };
            proof {
                assert(views(parameters@.push(parameter)) =~= views(parameters@).push(parameter@));
            }
            parameters.push(parameter);
        }
        let ghost middle = parameters@;
        if self.preferred_address.is_some() {
            let empty: [u8; 0] = [];
            let parameter = TransportParameter {
                id: TransportParameterId::PreferredAddress,
                value: parameter_value_from_slice(empty.as_slice()),
            };
            proof {
                assert(views(parameters@.push(parameter)) =~= views(parameters@).push(parameter@));
                assert(parameter@.value =~= Seq::<u8>::empty());
            }
            parameters.push(parameter);
        }
        proof {
            assert(views(parameters@) =~= views(start) + Self::spec_added(self@)->Ok_0);
        }
        Ok(())
    }

    proof fn lemma_role_round_trip(value: ServerSpecificView, others: Seq<TransportParameterView>) {
        let token_id = TransportParameterId::StatelessResetToken;
        let address_id = TransportParameterId::PreferredAddress;
        let address = TransportParameterView { id: address_id, value: Seq::<u8>::empty() };
        assert forall|i: int| 0 <= i < others.len() implies #[trigger] others[i].id != token_id by {
            assert(!spec_is_role_specific(others[i].id));
        }
        assert forall|i: int| 0 <= i < others.len() implies #[trigger] others[i].id != address_id by {
            assert(!spec_is_role_specific(others[i].id));
        }
        lemma_lookup_missing(others, token_id);
        lemma_lookup_missing(others, address_id);
        let empty = Seq::<TransportParameterView>::empty();
        let with_token = match value.stateless_reset_token {
            Some(token) => empty.push(TransportParameterView { id: token_id, value: token }),
            None => empty,
        };
        let added = match value.preferred_address {
            Some(_) => with_token.push(address),
            None => with_token,
        };
        assert(Self::spec_added(value)->Ok_0 =~= added);
        let all_token = match value.stateless_reset_token {
            Some(token) => others.push(TransportParameterView { id: token_id, value: token }),
            None => others,
        };
        let all = match value.preferred_address {
            Some(_) => all_token.push(address),
            None => all_token,
        };
        assert(others + added =~= all);
        if let Some(token) = value.stateless_reset_token {
            let t = TransportParameterView { id: token_id, value: token };
            lemma_lookup_push(others, t, token_id);
            lemma_lookup_push(others, t, address_id);
            lemma_lookup_push(empty, t, address_id);
            lemma_first_duplicate_push(empty, t);
            assert(token.take(16) =~= token);
        }
        if value.preferred_address is Some {
            lemma_lookup_push(all_token, address, token_id);
            lemma_lookup_push(all_token, address, address_id);
            lemma_first_duplicate_push(with_token, address);
            lemma_lookup_missing(empty, address_id);
        }
        assert(spec_lookup(all, token_id) == match value.stateless_reset_token {
            Some(token) => Some(token),
            None => None::<Seq<u8>>,
        });
        assert(spec_lookup(all, address_id) is Some == value.preferred_address is Some);
        if let Some(token) = value.stateless_reset_token {
            assert(spec_lookup(all, token_id) == Some(token));
            assert(token.len() >= 16);
        }
        assert(value.preferred_address is Some ==> value.preferred_address == Some(()));
        assert(Self::spec_from_parameters(all) == Ok::<ServerSpecificView, Error>(value));
    }
}

/// Looking an identifier up after one more parameter finds that parameter's value if it has the
/// identifier, and otherwise what was found before.
pub proof fn lemma_lookup_push(parameters: Seq<TransportParameterView>, last: TransportParameterView, id: TransportParameterId)
    ensures
        spec_lookup(parameters.push(last), id) == if last.id == id {
            Some(last.value)
        } else {
            spec_lookup(parameters, id)
        },
{
    assert(parameters.push(last).drop_last() =~= parameters);
}

/// One more parameter repeats an identifier first when the parameters before it did not and
/// already have its identifier.
pub proof fn lemma_first_duplicate_push(parameters: Seq<TransportParameterView>, last: TransportParameterView)
    ensures
        spec_first_duplicate(parameters.push(last)) == match spec_first_duplicate(parameters) {
            Some(id) => Some(id),
            None => if spec_lookup(parameters, last.id) is Some {
                Some(last.id)
            } else {
                None
            },
        },
{
    assert(parameters.push(last).drop_last() =~= parameters);
}

/// The client's own transport parameters: there are none.
#[derive(Debug, Clone, Eq, PartialEq)]
pub struct ClientSpecificTransportParameters;

impl View for ClientSpecificTransportParameters {
    type V = ClientSpecificTransportParameters;

    open spec fn view(&self) -> ClientSpecificTransportParameters {
        *self
    }
}

impl RoleSpecificTransportParameters for ClientSpecificTransportParameters {
    open spec fn spec_from_parameters(parameters: Seq<TransportParameterView>) -> Result<ClientSpecificTransportParameters, Error> {
        Ok(ClientSpecificTransportParameters)
    }

    open spec fn spec_added(value: ClientSpecificTransportParameters) -> Result<Seq<TransportParameterView>, Error> {
        Ok(Seq::empty())
    }

    open spec fn spec_well_formed(value: ClientSpecificTransportParameters) -> bool {
        true
    }

    fn from_transport_parameters(parameters: &[TransportParameter]) -> (r: Result<Self, Error>) {
        Ok(ClientSpecificTransportParameters)
    }

    fn add_transport_parameters(&self, parameters: &mut Vec<TransportParameter>) -> (r: Result<(), Error>) {
        proof {
            assert(views(parameters@) =~= views(parameters@) + Seq::<TransportParameterView>::empty());
        }
        Ok(())
    }

    proof fn lemma_role_round_trip(value: ClientSpecificTransportParameters, others: Seq<TransportParameterView>) {
    }
}

/// An identifier that no parameter has is not found.
pub proof fn lemma_lookup_missing(parameters: Seq<TransportParameterView>, id: TransportParameterId)
    requires
        forall|i: int| 0 <= i < parameters.len() ==> #[trigger] parameters[i].id != id,
    ensures
        spec_lookup(parameters, id) is None,
    decreases parameters.len(),
{
    if parameters.len() > 0 {
        let init = parameters.drop_last();
        assert forall|i: int| 0 <= i < init.len() implies #[trigger] init[i].id != id by {
            assert(init[i] == parameters[i]);
        }
        lemma_lookup_missing(init, id);
    }
}

/// The value of the parameter with identifier `id`, read as a `T`; the error that the parameter
/// must be specified when there is none.
pub open spec fn spec_required<T: Readable>(parameters: Seq<TransportParameterView>, id: TransportParameterId) -> Result<<T as View>::V, Error> {
    match spec_lookup(parameters, id) {
        None => Err(Error::TransportParameterMustBeSpecified(spec_id_code(id))),
        Some(value) => match T::spec_read(value) {
            Ok((v, _)) => Ok(v),
            Err(e) => Err(e),
        },
    }
}

/// The value of the parameter with identifier `id`, read as a `T`, if there is one.
pub open spec fn spec_optional<T: Readable>(parameters: Seq<TransportParameterView>, id: TransportParameterId) -> Result<Option<<T as View>::V>, Error> {
    match spec_lookup(parameters, id) {
        None => Ok(None),
        Some(value) => match T::spec_read(value) {
            Ok((v, _)) => Ok(Some(v)),
            Err(e) => Err(e),
        },
    }
}

/// Reads the value of the parameter with identifier `id`, which must be there.
fn get_parameter_value<T: Readable>(parameters: &[TransportParameter], id: TransportParameterId) -> (r: Result<T, Error>)
    ensures
        match spec_required::<T>(views(parameters@), id) {
            Ok(value) => r matches Ok(v) && v@ == value,
            Err(e) => r matches Err(re) && re == e,
        },
{
    match lookup(parameters, id) {
        Some(bytes) => T::from_bytes(bytes),
        None => Err(Error::TransportParameterMustBeSpecified(id.code())),
    }
}

/// Reads the value of the parameter with identifier `id`, if there is one.
fn try_get_parameter_value<T: Readable>(parameters: &[TransportParameter], id: TransportParameterId) -> (r: Result<Option<T>, Error>)
    ensures
        match spec_optional::<T>(views(parameters@), id) {
            Ok(Some(value)) => r matches Ok(Some(v)) && v@ == value,
            Ok(None) => r matches Ok(None),
            Err(e) => r matches Err(re) && re == e,
        },
{
    match lookup(parameters, id) {
        Some(bytes) => match T::from_bytes(bytes) {
            Ok(value) => Ok(Some(value)),
            Err(e) => Err(e),
        },
        None => Ok(None),
    }
}

/// A parameter holding the bytes a value is written as.
fn parameter_of<T: Writable>(id: TransportParameterId, value: &T) -> (r: TransportParameter)
    requires
        T::write_requires(value@),
        T::spec_write(value@) is Ok,
    ensures
        r@ == (TransportParameterView { id, value: T::spec_write(value@)->Ok_0 }),
{
    let bytes = match value.bytes_vec() {
        Ok(bytes) => bytes,
        Err(_) => Vec::new(),
    };
    TransportParameter { id, value: parameter_value_from_slice(bytes.as_slice()) }
}

/// The transport parameters sent in a handshake message.
#[derive(Debug, Clone, Eq, PartialEq)]
pub struct TransportParameters<M, R> {
    pub message_parameters: M,
    pub initial_max_stream_data: u32,
    pub initial_max_data: u32,
    pub idle_timeout: u16,
    pub initial_max_bidi_streams: Option<u16>,
    pub initial_max_uni_streams: Option<u16>,
    pub max_packet_size: Option<u16>,
    pub ack_delay_exponent: Option<u8>,
    pub disable_migration: bool,
    pub role_specific_transport_parameters: R,
}

/// What transport parameters hold.
pub struct TransportParametersView<MV, RV> {
    pub message_parameters: MV,
    pub initial_max_stream_data: u32,
    pub initial_max_data: u32,
    pub idle_timeout: u16,
    pub initial_max_bidi_streams: Option<u16>,
    pub initial_max_uni_streams: Option<u16>,
    pub max_packet_size: Option<u16>,
    pub ack_delay_exponent: Option<u8>,
    pub disable_migration: bool,
    pub role_specific_transport_parameters: RV,
}

impl<M: View, R: View> View for TransportParameters<M, R> {
    type V = TransportParametersView<M::V, R::V>;

    open spec fn view(&self) -> TransportParametersView<M::V, R::V> {
        TransportParametersView {
            message_parameters: self.message_parameters@,
            initial_max_stream_data: self.initial_max_stream_data,
            initial_max_data: self.initial_max_data,
            idle_timeout: self.idle_timeout,
            initial_max_bidi_streams: self.initial_max_bidi_streams,
            initial_max_uni_streams: self.initial_max_uni_streams,
            max_packet_size: self.max_packet_size,
            ack_delay_exponent: self.ack_delay_exponent,
            disable_migration: self.disable_migration,
            role_specific_transport_parameters: self.role_specific_transport_parameters@,
        }
    }
}

/// A parameter view.
pub open spec fn spec_parameter(id: TransportParameterId, value: Seq<u8>) -> TransportParameterView {
    TransportParameterView { id, value }
}

/// The parameters every block of transport parameters is written with, in order of identifier:
/// the initial maximum stream data and data, the initial maximum bidirectional streams if given,
/// the idle timeout, the maximum packet size, the ack delay exponent and the initial maximum
/// unidirectional streams if given, and an empty parameter when migration is disabled.
pub open spec fn spec_common_parameters<MV, RV>(value: TransportParametersView<MV, RV>) -> Seq<TransportParameterView> {
    let p0 = Seq::<TransportParameterView>::empty().push(
        spec_parameter(TransportParameterId::InitialMaxStreamData, u32::spec_write(value.initial_max_stream_data)->Ok_0),
    ).push(spec_parameter(TransportParameterId::InitialMaxData, u32::spec_write(value.initial_max_data)->Ok_0));
    let p1 = match value.initial_max_bidi_streams {
        Some(v) => p0.push(spec_parameter(TransportParameterId::InitialMaxBidiStreams, u16::spec_write(v)->Ok_0)),
        None => p0,
    };
    let p2 = p1.push(spec_parameter(TransportParameterId::IdleTimeout, u16::spec_write(value.idle_timeout)->Ok_0));
    let p3 = match value.max_packet_size {
        Some(v) => p2.push(spec_parameter(TransportParameterId::MaxPacketSize, u16::spec_write(v)->Ok_0)),
        None => p2,
    };
    let p4 = match value.ack_delay_exponent {
        Some(v) => p3.push(spec_parameter(TransportParameterId::AckDelayExponent, u8::spec_write(v)->Ok_0)),
        None => p3,
    };
    let p5 = match value.initial_max_uni_streams {
        Some(v) => p4.push(spec_parameter(TransportParameterId::InitialMaxUniStreams, u16::spec_write(v)->Ok_0)),
        None => p4,
    };
    if value.disable_migration {
        p5.push(spec_parameter(TransportParameterId::DisableMigration, Seq::empty()))
    } else {
        p5
    }
}

/// The bytes transport parameters are written as: the message parameters, then the number of
/// bytes of parameters in two bytes, then the common parameters and the role-specific ones.
pub open spec fn spec_write_transport_parameters<M: MessageParameters, R: RoleSpecificTransportParameters>(
    value: TransportParametersView<<M as View>::V, <R as View>::V>,
) -> Result<Seq<u8>, Error> {
    match M::spec_write(value.message_parameters) {
        Err(e) => Err(e),
        Ok(message) => match R::spec_added(value.role_specific_transport_parameters) {
            Err(e) => Err(e),
            Ok(added) => {
                let body = spec_parameters_bytes(spec_common_parameters(value) + added);
                Ok(message + be_bytes(body.len(), 2) + body)
            },
        },
    }
}

/// The fields transport parameters take from a list of parameters, in the order they are read,
/// each with the error it can give.
pub open spec fn spec_fields_from_parameters<M: MessageParameters, R: RoleSpecificTransportParameters>(
    message_parameters: <M as View>::V,
    parameters: Seq<TransportParameterView>,
) -> Result<TransportParametersView<<M as View>::V, <R as View>::V>, Error> {
    match spec_required::<u32>(parameters, TransportParameterId::InitialMaxStreamData) {
        Err(e) => Err(e),
        Ok(initial_max_stream_data) => match spec_required::<u32>(parameters, TransportParameterId::InitialMaxData) {
            Err(e) => Err(e),
            Ok(initial_max_data) => match spec_required::<u16>(parameters, TransportParameterId::IdleTimeout) {
                Err(e) => Err(e),
                Ok(idle_timeout) => match spec_optional::<u16>(parameters, TransportParameterId::InitialMaxBidiStreams) {
                    Err(e) => Err(e),
                    Ok(initial_max_bidi_streams) => match spec_optional::<u16>(parameters, TransportParameterId::InitialMaxUniStreams) {
                        Err(e) => Err(e),
                        Ok(initial_max_uni_streams) => match spec_optional::<u16>(parameters, TransportParameterId::MaxPacketSize) {
                            Err(e) => Err(e),
                            Ok(max_packet_size) => match spec_optional::<u8>(parameters, TransportParameterId::AckDelayExponent) {
                                Err(e) => Err(e),
                                Ok(ack_delay_exponent) => match R::spec_from_parameters(parameters) {
                                    Err(e) => Err(e),
                                    Ok(role_specific_transport_parameters) => Ok(
                                        TransportParametersView {
                                            message_parameters,
                                            initial_max_stream_data,
                                            initial_max_data,
                                            idle_timeout,
                                            initial_max_bidi_streams,
                                            initial_max_uni_streams,
                                            max_packet_size,
                                            ack_delay_exponent,
                                            disable_migration: spec_lookup(parameters, TransportParameterId::DisableMigration) is Some,
                                            role_specific_transport_parameters,
                                        },
                                    ),
                                },
                            },
                        },
                    },
                },
            },
        },
    }
}

/// What reading transport parameters gives: the message parameters, the number of bytes of
/// parameters, and the parameters in those bytes (cut short where the bytes run out); no
/// identifier may repeat, and the fields are taken from the parameters.
pub open spec fn spec_read_transport_parameters<M: MessageParameters, R: RoleSpecificTransportParameters>(
    bytes: Seq<u8>,
) -> Result<(TransportParametersView<<M as View>::V, <R as View>::V>, nat), Error> {
    match M::spec_read(bytes) {
        Err(e) => Err(e),
        Ok((message_parameters, n0)) => match u16::spec_read(bytes.subrange(n0 as int, bytes.len() as int)) {
            Err(e) => Err(e),
            Ok((length, n1)) => {
                let start = n0 + n1;
                let end = if start + length <= bytes.len() { start + length } else { bytes.len() as int };
                match spec_collect::<TransportParameter>(bytes.subrange(start as int, end)) {
                    Err(e) => Err(e),
                    Ok(parameters) => match spec_first_duplicate(parameters) {
                        Some(id) => Err(Error::DuplicateTransportParameter(spec_id_code(id))),
                        None => match spec_fields_from_parameters::<M, R>(message_parameters, parameters) {
                            Err(e) => Err(e),
                            Ok(value) => Ok((value, end as nat)),
                        },
                    },
                }
            },
        },
    }
}

impl<M: MessageParameters, R: RoleSpecificTransportParameters> Readable for TransportParameters<M, R> {
    open spec fn spec_read(bytes: Seq<u8>) -> Result<(TransportParametersView<<M as View>::V, <R as View>::V>, nat), Error> {
        spec_read_transport_parameters::<M, R>(bytes)
    }

    proof fn lemma_read_bounds(bytes: Seq<u8>) {
        M::lemma_read_bounds(bytes);
    }

    fn read(bytes: &[u8]) -> (res: Result<(TransportParameters<M, R>, usize), Error>) {
        let (message_parameters, n0) = match M::read(bytes) {
            Ok(read) => read,
            Err(e) => {
                return Err(e);
            },
        };
        proof {
            M::lemma_read_bounds(bytes@);
        }
        let (length, n1) = match u16::read(slice_subrange(bytes, n0, bytes.len())) {
            Ok(read) => read,
            Err(e) => {
                return Err(e);
            },
        };
        let start = n0 + n1;
        let end = if (length as usize) <= bytes.len() - start {
            start + length as usize
        } else {
            bytes.len()
        };
        let parameters = match collect_from_bytes::<TransportParameter>(slice_subrange(bytes, start, end)) {
            Ok(parameters) => parameters,
            Err(e) => {
                return Err(e);
            },
        };
        let parameters = parameters.as_slice();
        match check_duplicates(parameters) {
            Ok(()) => {},
            Err(e) => {
                return Err(e);
            },
        }
        let initial_max_stream_data = match get_parameter_value::<u32>(
            parameters,
            TransportParameterId::InitialMaxStreamData,
        ) {
            Ok(value) => value,
            Err(e) => {
                return Err(e);
            },
        };
        let initial_max_data = match get_parameter_value::<u32>(parameters, TransportParameterId::InitialMaxData) {
            Ok(value) => value,
            Err(e) => {
                return Err(e);
            },
        };
        let idle_timeout = match get_parameter_value::<u16>(parameters, TransportParameterId::IdleTimeout) {
            Ok(value) => value,
            Err(e) => {
                return Err(e);
            },
        };
        let initial_max_bidi_streams = match try_get_parameter_value::<u16>(
            parameters,
            TransportParameterId::InitialMaxBidiStreams,
        ) {
            Ok(value) => value,
            Err(e) => {
                return Err(e);
            },
        };
        let initial_max_uni_streams = match try_get_parameter_value::<u16>(
            parameters,
            TransportParameterId::InitialMaxUniStreams,
        ) {
            Ok(value) => value,
            Err(e) => {
                return Err(e);
            },
        };
        let max_packet_size = match try_get_parameter_value::<u16>(parameters, TransportParameterId::MaxPacketSize) {
            Ok(value) => value,
            Err(e) => {
                return Err(e);
            },
        };
        let ack_delay_exponent = match try_get_parameter_value::<u8>(
            parameters,
            TransportParameterId::AckDelayExponent,
        ) {
            Ok(value) => value,
            Err(e) => {
                return Err(e);
            },
        };
        let disable_migration = lookup(parameters, TransportParameterId::DisableMigration).is_some();
        let role_specific_transport_parameters = match R::from_transport_parameters(parameters) {
            Ok(value) => value,
            Err(e) => {
                return Err(e);
            },
        };
        Ok(
            (
                TransportParameters {
                    message_parameters,
                    initial_max_stream_data,
                    initial_max_data,
                    idle_timeout,
                    initial_max_bidi_streams,
                    initial_max_uni_streams,
                    max_packet_size,
                    ack_delay_exponent,
                    disable_migration,
                    role_specific_transport_parameters,
                },
                end,
            ),
        )
    }
}

/// The common parameters have no role-specific identifier, values of at most four bytes, and
/// there are at most eight of them.
#[verifier::spinoff_prover]
proof fn lemma_common_parameters_shape<MV, RV>(value: TransportParametersView<MV, RV>)
    ensures
        forall|i: int| 0 <= i < spec_common_parameters(value).len()
            ==> !spec_is_role_specific(#[trigger] spec_common_parameters(value)[i].id),
        forall|i: int| 0 <= i < spec_common_parameters(value).len()
            ==> #[trigger] spec_common_parameters(value)[i].value.len() <= 4,
        spec_common_parameters(value).len() <= 8,
{
    lemma_pow256_values();
    lemma_be_bytes_value(value.initial_max_stream_data as nat, 4);
    lemma_be_bytes_value(value.initial_max_data as nat, 4);
    lemma_be_bytes_value(value.idle_timeout as nat, 2);
    let e = Seq::<TransportParameterView>::empty();
    let a = spec_parameter(TransportParameterId::InitialMaxStreamData, u32::spec_write(value.initial_max_stream_data)->Ok_0);
    let b = spec_parameter(TransportParameterId::InitialMaxData, u32::spec_write(value.initial_max_data)->Ok_0);
    let p0 = e.push(a).push(b);
    let p1 = match value.initial_max_bidi_streams {
        Some(v) => p0.push(spec_parameter(TransportParameterId::InitialMaxBidiStreams, u16::spec_write(v)->Ok_0)),
        None => p0,
    };
    let c = spec_parameter(TransportParameterId::IdleTimeout, u16::spec_write(value.idle_timeout)->Ok_0);
    let p2 = p1.push(c);
    let p3 = match value.max_packet_size {
        Some(v) => p2.push(spec_parameter(TransportParameterId::MaxPacketSize, u16::spec_write(v)->Ok_0)),
        None => p2,
    };
    let p4 = match value.ack_delay_exponent {
        Some(v) => p3.push(spec_parameter(TransportParameterId::AckDelayExponent, u8::spec_write(v)->Ok_0)),
        None => p3,
    };
    let p5 = match value.initial_max_uni_streams {
        Some(v) => p4.push(spec_parameter(TransportParameterId::InitialMaxUniStreams, u16::spec_write(v)->Ok_0)),
        None => p4,
    };
    let d = spec_parameter(TransportParameterId::DisableMigration, Seq::empty());
    let p6 = if value.disable_migration { p5.push(d) } else { p5 };
    assert(spec_common_parameters(value) == p6);
    assert forall|i: int| 0 <= i < p6.len() implies #[trigger] p6[i].value.len() <= 4 by {
        if let Some(v) = value.initial_max_bidi_streams {
            lemma_be_bytes_value(v as nat, 2);
        }
        if let Some(v) = value.max_packet_size {
            lemma_be_bytes_value(v as nat, 2);
        }
        if let Some(v) = value.initial_max_uni_streams {
            lemma_be_bytes_value(v as nat, 2);
        }
    }
}

/// The common parameters hold each field's value under its identifier (and nothing under an
/// optional field that is not given), and repeat no identifier.
#[verifier::rlimit(40)]
#[verifier::spinoff_prover]
proof fn lemma_common_parameters_lookups<MV, RV>(value: TransportParametersView<MV, RV>)
    ensures
        spec_lookup(spec_common_parameters(value), TransportParameterId::InitialMaxStreamData)
            == Some(u32::spec_write(value.initial_max_stream_data)->Ok_0),
        spec_lookup(spec_common_parameters(value), TransportParameterId::InitialMaxData)
            == Some(u32::spec_write(value.initial_max_data)->Ok_0),
        spec_lookup(spec_common_parameters(value), TransportParameterId::IdleTimeout)
            == Some(u16::spec_write(value.idle_timeout)->Ok_0),
        spec_lookup(spec_common_parameters(value), TransportParameterId::InitialMaxBidiStreams)
            == match value.initial_max_bidi_streams {
            Some(v) => Some(u16::spec_write(v)->Ok_0),
            None => None,
        },
        spec_lookup(spec_common_parameters(value), TransportParameterId::InitialMaxUniStreams)
            == match value.initial_max_uni_streams {
            Some(v) => Some(u16::spec_write(v)->Ok_0),
            None => None,
        },
        spec_lookup(spec_common_parameters(value), TransportParameterId::MaxPacketSize)
            == match value.max_packet_size {
            Some(v) => Some(u16::spec_write(v)->Ok_0),
            None => None,
        },
        spec_lookup(spec_common_parameters(value), TransportParameterId::AckDelayExponent)
            == match value.ack_delay_exponent {
            Some(v) => Some(u8::spec_write(v)->Ok_0),
            None => None,
        },
        spec_lookup(spec_common_parameters(value), TransportParameterId::DisableMigration) is Some
            == value.disable_migration,
        spec_first_duplicate(spec_common_parameters(value)) is None,
{
    let e = Seq::<TransportParameterView>::empty();
    let a = spec_parameter(TransportParameterId::InitialMaxStreamData, u32::spec_write(value.initial_max_stream_data)->Ok_0);
    let b = spec_parameter(TransportParameterId::InitialMaxData, u32::spec_write(value.initial_max_data)->Ok_0);
    let p0 = e.push(a).push(b);
    let p1 = match value.initial_max_bidi_streams {
        Some(v) => p0.push(spec_parameter(TransportParameterId::InitialMaxBidiStreams, u16::spec_write(v)->Ok_0)),
        None => p0,
    };
    let c = spec_parameter(TransportParameterId::IdleTimeout, u16::spec_write(value.idle_timeout)->Ok_0);
    let p2 = p1.push(c);
    let p3 = match value.max_packet_size {
        Some(v) => p2.push(spec_parameter(TransportParameterId::MaxPacketSize, u16::spec_write(v)->Ok_0)),
        None => p2,
    };
    let p4 = match value.ack_delay_exponent {
        Some(v) => p3.push(spec_parameter(TransportParameterId::AckDelayExponent, u8::spec_write(v)->Ok_0)),
        None => p3,
    };
    let p5 = match value.initial_max_uni_streams {
        Some(v) => p4.push(spec_parameter(TransportParameterId::InitialMaxUniStreams, u16::spec_write(v)->Ok_0)),
        None => p4,
    };
    let d = spec_parameter(TransportParameterId::DisableMigration, Seq::empty());
    let p6 = if value.disable_migration { p5.push(d) } else { p5 };
    assert(spec_common_parameters(value) == p6);
    assert forall|id: TransportParameterId| true implies spec_lookup(e, id) is None by {}
    assert forall|id: TransportParameterId| true implies #[trigger] spec_lookup(e.push(a), id)
        == (if a.id == id { Some(a.value) } else { None }) by {
        lemma_lookup_push(e, a, id);
    }
    assert forall|id: TransportParameterId| true implies #[trigger] spec_lookup(p0, id)
        == (if b.id == id { Some(b.value) } else { spec_lookup(e.push(a), id) }) by {
        lemma_lookup_push(e.push(a), b, id);
    }
    lemma_first_duplicate_push(e, a);
    lemma_first_duplicate_push(e.push(a), b);
    if let Some(v) = value.initial_max_bidi_streams {
        let x = spec_parameter(TransportParameterId::InitialMaxBidiStreams, u16::spec_write(v)->Ok_0);
        assert forall|id: TransportParameterId| true implies #[trigger] spec_lookup(p1, id)
            == (if x.id == id { Some(x.value) } else { spec_lookup(p0, id) }) by {
            lemma_lookup_push(p0, x, id);
        }
        lemma_first_duplicate_push(p0, x);
    }
    assert forall|id: TransportParameterId| true implies #[trigger] spec_lookup(p2, id)
        == (if c.id == id { Some(c.value) } else { spec_lookup(p1, id) }) by {
        lemma_lookup_push(p1, c, id);
    }
    lemma_first_duplicate_push(p1, c);
    if let Some(v) = value.max_packet_size {
        let x = spec_parameter(TransportParameterId::MaxPacketSize, u16::spec_write(v)->Ok_0);
        assert forall|id: TransportParameterId| true implies #[trigger] spec_lookup(p3, id)
            == (if x.id == id { Some(x.value) } else { spec_lookup(p2, id) }) by {
            lemma_lookup_push(p2, x, id);
        }
        lemma_first_duplicate_push(p2, x);
    }
    if let Some(v) = value.ack_delay_exponent {
        let x = spec_parameter(TransportParameterId::AckDelayExponent, u8::spec_write(v)->Ok_0);
        assert forall|id: TransportParameterId| true implies #[trigger] spec_lookup(p4, id)
            == (if x.id == id { Some(x.value) } else { spec_lookup(p3, id) }) by {
            lemma_lookup_push(p3, x, id);
        }
        lemma_first_duplicate_push(p3, x);
    }
    if let Some(v) = value.initial_max_uni_streams {
        let x = spec_parameter(TransportParameterId::InitialMaxUniStreams, u16::spec_write(v)->Ok_0);
        assert forall|id: TransportParameterId| true implies #[trigger] spec_lookup(p5, id)
            == (if x.id == id { Some(x.value) } else { spec_lookup(p4, id) }) by {
            lemma_lookup_push(p4, x, id);
        }
        lemma_first_duplicate_push(p4, x);
    }
    if value.disable_migration {
        assert forall|id: TransportParameterId| true implies #[trigger] spec_lookup(p6, id)
            == (if d.id == id { Some(d.value) } else { spec_lookup(p5, id) }) by {
            lemma_lookup_push(p5, d, id);
        }
        lemma_first_duplicate_push(p5, d);
    }
}

/// What the common parameters hold: each field's value under its identifier (and nothing under
/// an optional field that is not given), no repeated and no role-specific identifier, and values
/// of at most four bytes.
pub proof fn lemma_common_parameters<MV, RV>(value: TransportParametersView<MV, RV>)
    ensures
        spec_lookup(spec_common_parameters(value), TransportParameterId::InitialMaxStreamData)
            == Some(u32::spec_write(value.initial_max_stream_data)->Ok_0),
        spec_lookup(spec_common_parameters(value), TransportParameterId::InitialMaxData)
            == Some(u32::spec_write(value.initial_max_data)->Ok_0),
        spec_lookup(spec_common_parameters(value), TransportParameterId::IdleTimeout)
            == Some(u16::spec_write(value.idle_timeout)->Ok_0),
        spec_lookup(spec_common_parameters(value), TransportParameterId::InitialMaxBidiStreams)
            == match value.initial_max_bidi_streams {
            Some(v) => Some(u16::spec_write(v)->Ok_0),
            None => None,
        },
        spec_lookup(spec_common_parameters(value), TransportParameterId::InitialMaxUniStreams)
            == match value.initial_max_uni_streams {
            Some(v) => Some(u16::spec_write(v)->Ok_0),
            None => None,
        },
        spec_lookup(spec_common_parameters(value), TransportParameterId::MaxPacketSize)
            == match value.max_packet_size {
            Some(v) => Some(u16::spec_write(v)->Ok_0),
            None => None,
        },
        spec_lookup(spec_common_parameters(value), TransportParameterId::AckDelayExponent)
            == match value.ack_delay_exponent {
            Some(v) => Some(u8::spec_write(v)->Ok_0),
            None => None,
        },
        spec_lookup(spec_common_parameters(value), TransportParameterId::DisableMigration) is Some
            == value.disable_migration,
        spec_first_duplicate(spec_common_parameters(value)) is None,
        forall|i: int| 0 <= i < spec_common_parameters(value).len()
            ==> !spec_is_role_specific(#[trigger] spec_common_parameters(value)[i].id),
        forall|i: int| 0 <= i < spec_common_parameters(value).len()
            ==> #[trigger] spec_common_parameters(value)[i].value.len() <= 4,
        spec_common_parameters(value).len() <= 8,
{
    lemma_common_parameters_shape(value);
    lemma_common_parameters_lookups(value);
}

/// Parameters whose values have at most four bytes take up at most eight bytes each.
pub proof fn lemma_parameters_bytes_bound(parameters: Seq<TransportParameterView>)
    requires
        forall|i: int| 0 <= i < parameters.len() ==> #[trigger] parameters[i].value.len() <= 4,
    ensures
        spec_parameters_bytes(parameters).len() <= 8 * parameters.len(),
    decreases parameters.len(),
{
    if parameters.len() > 0 {
        let rest = parameters.drop_first();
        assert forall|i: int| 0 <= i < rest.len() implies #[trigger] rest[i].value.len() <= 4 by {
            assert(rest[i] == parameters[i + 1]);
        }
        lemma_parameters_bytes_bound(rest);
        crate::primitives::byte_order_primitives::lemma_be_bytes_len(spec_id_code(parameters[0].id) as nat, 2);
        crate::primitives::byte_order_primitives::lemma_be_bytes_len(parameters[0].value.len(), 2);
    }
}

/// The bytes of the first parameters are no more than those of all of them.
proof fn lemma_parameters_bytes_prefix(parameters: Seq<TransportParameterView>, k: int)
    requires
        0 <= k <= parameters.len(),
    ensures
        spec_parameters_bytes(parameters.take(k)).len() <= spec_parameters_bytes(parameters).len(),
    decreases parameters.len(),
{
    if k < parameters.len() {
        let init = parameters.drop_last();
        lemma_parameters_bytes_prefix(init, k);
        assert(init.take(k) =~= parameters.take(k));
        lemma_parameters_bytes_push(init, parameters.last());
        assert(init.push(parameters.last()) =~= parameters);
    } else {
        assert(parameters.take(k) =~= parameters);
    }
}

/// Appends a parameter.
fn push_parameter(parameters: &mut Vec<TransportParameter>, parameter: TransportParameter)
    ensures
        views(final(parameters)@) == views(old(parameters)@).push(parameter@),
{
    let ghost before = parameters@;
    parameters.push(parameter);
    proof {
        assert(views(parameters@) =~= views(before).push(parameter@));
    }
}

/// The number of bytes the parameters are written as.
fn parameters_bytes_len(parameters: &[TransportParameter]) -> (r: usize)
    requires
        spec_parameters_bytes(views(parameters@)).len() <= 0xffff,
    ensures
        r == spec_parameters_bytes(views(parameters@)).len(),
{
    let ghost all = views(parameters@);
    let mut total: usize = 0;
    let mut i: usize = 0;
    while i < parameters.len()
        invariant
            all == views(parameters@),
            spec_parameters_bytes(all).len() <= 0xffff,
            i <= parameters@.len(),
            total == spec_parameters_bytes(all.take(i as int)).len(),
        decreases parameters.len() - i,
    {
        proof {
            assert(all.take(i + 1) =~= all.take(i as int).push(all[i as int]));
            lemma_parameters_bytes_push(all.take(i as int), all[i as int]);
            lemma_parameters_bytes_prefix(all, i + 1);
            lemma_pow256_values();
            crate::primitives::byte_order_primitives::lemma_be_bytes_len(spec_id_code(all[i as int].id) as nat, 2);
            crate::primitives::byte_order_primitives::lemma_be_bytes_len(all[i as int].value.len(), 2);
        }
        let value = parameter_value_as_slice(&parameters[i].value);
        total = total + 4 + value.len();
        i = i + 1;
    }
    proof {
        assert(all.take(parameters@.len() as int) =~= all);
    }
    total
}

/// Writes the parameters one after another.
fn write_parameters(parameters: &[TransportParameter], out: &mut Vec<u8>)
    requires
        spec_values_fit(views(parameters@)),
    ensures
        final(out)@ == old(out)@ + spec_parameters_bytes(views(parameters@)),
{
    let ghost all = views(parameters@);
    let ghost start = out@;
    let mut i: usize = 0;
    proof {
        assert(all.take(0) =~= Seq::<TransportParameterView>::empty());
        assert(start + spec_parameters_bytes(all.take(0)) =~= start);
    }
    while i < parameters.len()
        invariant
            all == views(parameters@),
            spec_values_fit(all),
            i <= parameters@.len(),
            out@ == start + spec_parameters_bytes(all.take(i as int)),
        decreases parameters.len() - i,
    {
        proof {
            assert(all.take(i + 1) =~= all.take(i as int).push(all[i as int]));
            lemma_parameters_bytes_push(all.take(i as int), all[i as int]);
            assert(all[i as int] == parameters@[i as int]@);
        }
        let ghost before = out@;
        let _ = parameters[i].write(out);
        proof {
            assert(out@ =~= start + spec_parameters_bytes(all.take(i + 1)));
        }
        i = i + 1;
    }
    proof {
        assert(all.take(parameters@.len() as int) =~= all);
    }
}

impl<M: MessageParameters, R: RoleSpecificTransportParameters> Writable for TransportParameters<M, R> {
    open spec fn spec_write(value: TransportParametersView<<M as View>::V, <R as View>::V>) -> Result<Seq<u8>, Error> {
        spec_write_transport_parameters::<M, R>(value)
    }

    /// The message parameters must be writable, the role-specific values well formed, and the
    /// parameters must take up at most 0xffff bytes, for their length is written in two.
    open spec fn write_requires(value: TransportParametersView<<M as View>::V, <R as View>::V>) -> bool {
        &&& M::write_requires(value.message_parameters)
        &&& R::spec_well_formed(value.role_specific_transport_parameters)
        &&& (R::spec_added(value.role_specific_transport_parameters) matches Ok(added)
            ==> spec_parameters_bytes(spec_common_parameters(value) + added).len() <= 0xffff)
    }

    fn write(&self, out: &mut Vec<u8>) -> (res: Result<(), Error>) {
        let ghost start = out@;
        match self.message_parameters.write(out) {
            Ok(()) => {},
            Err(e) => {
                return Err(e);
            },
        }
        let ghost message = out@;
        let mut parameters: Vec<TransportParameter> = Vec::new();
        proof {
            lemma_pow256_values();
            assert(views(parameters@) =~= Seq::<TransportParameterView>::empty());
        }
        push_parameter(
            &mut parameters,
            parameter_of(TransportParameterId::InitialMaxStreamData, &self.initial_max_stream_data),
        );
        push_parameter(&mut parameters, parameter_of(TransportParameterId::InitialMaxData, &self.initial_max_data));
        if let Some(value) = self.initial_max_bidi_streams {
            push_parameter(&mut parameters, parameter_of(TransportParameterId::InitialMaxBidiStreams, &value));
        }
        push_parameter(&mut parameters, parameter_of(TransportParameterId::IdleTimeout, &self.idle_timeout));
        if let Some(value) = self.max_packet_size {
            push_parameter(&mut parameters, parameter_of(TransportParameterId::MaxPacketSize, &value));
        }
        if let Some(value) = self.ack_delay_exponent {
            push_parameter(&mut parameters, parameter_of(TransportParameterId::AckDelayExponent, &value));
        }
        if let Some(value) = self.initial_max_uni_streams {
            push_parameter(&mut parameters, parameter_of(TransportParameterId::InitialMaxUniStreams, &value));
        }
        if self.disable_migration {
            let empty: [u8; 0] = [];
            let parameter = TransportParameter {
                id: TransportParameterId::DisableMigration,
                value: parameter_value_from_slice(empty.as_slice()),
            };
            proof {
                assert(parameter@.value =~= Seq::<u8>::empty());
            }
            push_parameter(&mut parameters, parameter);
        }
        proof {
            assert(views(parameters@) =~= spec_common_parameters(self@));
        }
        match self.role_specific_transport_parameters.add_transport_parameters(&mut parameters) {
            Ok(()) => {},
            Err(e) => {
                proof {
                    assert(start =~= out@.subrange(0, start.len() as int));
                }
                return Err(e);
            },
        }
        let ghost all = views(parameters@);
        proof {
            let added = R::spec_added(self.role_specific_transport_parameters@)->Ok_0;
            lemma_common_parameters(self@);
            assert(all == spec_common_parameters(self@) + added);
            R::lemma_role_round_trip(self.role_specific_transport_parameters@, spec_common_parameters(self@));
            assert(spec_values_fit(all)) by {
                assert forall|i: int| 0 <= i < all.len() implies #[trigger] all[i].value.len() <= 0xffff by {
                    let common = spec_common_parameters(self@);
                    if i < common.len() {
                        assert(all[i] == common[i]);
                    } else {
                        assert(all[i] == added[i - common.len()]);
                    }
                }
            }
        }
        let total = parameters_bytes_len(parameters.as_slice());
        let _ = (total as u16).write(out);
        write_parameters(parameters.as_slice(), out);
        proof {
            let body = spec_parameters_bytes(all);
            assert(out@ =~= start + (M::spec_write(self.message_parameters@)->Ok_0 + be_bytes(body.len(), 2) + body));
        }
        Ok(())
    }
}

/// Reading back a big-endian encoding of a value in as many bytes as its type has gives it.
proof fn lemma_read_written_integers(a: u32, b: u16, c: u8)
    ensures
        u32::spec_read(u32::spec_write(a)->Ok_0) == Ok::<(u32, nat), Error>((a, 4)),
        u16::spec_read(u16::spec_write(b)->Ok_0) == Ok::<(u16, nat), Error>((b, 2)),
        u8::spec_read(u8::spec_write(c)->Ok_0) == Ok::<(u8, nat), Error>((c, 1)),
{
    lemma_pow256_values();
    lemma_be_bytes_value(a as nat, 4);
    lemma_be_bytes_value(b as nat, 2);
    assert(be_bytes(a as nat, 4).take(4) =~= be_bytes(a as nat, 4));
    assert(be_bytes(b as nat, 2).take(2) =~= be_bytes(b as nat, 2));
}

/// Writing transport parameters and reading the bytes back gives them again and reads all the
/// bytes written, whenever writing succeeds and the message parameters read back as written (for
/// encrypted extensions: when each supported version is listed once, as in a set).
pub proof fn lemma_transport_parameters_round_trip<M: MessageParameters, R: RoleSpecificTransportParameters>(
    value: TransportParametersView<<M as View>::V, <R as View>::V>,
)
    requires
        M::spec_round_trips(value.message_parameters),
        TransportParameters::<M, R>::write_requires(value),
    ensures
        spec_write_transport_parameters::<M, R>(value) matches Ok(bytes) ==> spec_read_transport_parameters::<M, R>(bytes)
            == Ok::<(TransportParametersView<<M as View>::V, <R as View>::V>, nat), Error>((value, bytes.len())),
{
    if let Ok(bytes) = spec_write_transport_parameters::<M, R>(value) {
        lemma_pow256_values();
        let message = M::spec_write(value.message_parameters)->Ok_0;
        let added = R::spec_added(value.role_specific_transport_parameters)->Ok_0;
        let common = spec_common_parameters(value);
        let all = common + added;
        let body = spec_parameters_bytes(all);
        lemma_common_parameters(value);
        R::lemma_role_round_trip(value.role_specific_transport_parameters, common);
        assert(spec_values_fit(all)) by {
            assert forall|i: int| 0 <= i < all.len() implies #[trigger] all[i].value.len() <= 0xffff by {
                if i < common.len() {
                    assert(all[i] == common[i]);
                } else {
                    assert(all[i] == added[i - common.len()]);
                }
            }
        }
        lemma_parameters_round_trip(all);
        let length_bytes = be_bytes(body.len(), 2);
        lemma_be_bytes_value(body.len(), 2);
        M::lemma_message_round_trip(value.message_parameters, length_bytes + body);
        assert(bytes =~= message + (length_bytes + body));
        let n0 = message.len();
        assert(bytes.subrange(n0 as int, bytes.len() as int).take(2) =~= length_bytes);
        assert(bytes.subrange(n0 + 2int, bytes.len() as int) =~= body);
        assert forall|i: int| 0 <= i < added.len() implies spec_lookup(common, #[trigger] added[i].id) is None by {
            let id = added[i].id;
            assert forall|j: int| 0 <= j < common.len() implies #[trigger] common[j].id != id by {
                assert(!spec_is_role_specific(common[j].id));
            }
            lemma_lookup_missing(common, id);
        }
        lemma_no_duplicate_append(common, added);
        assert forall|id: TransportParameterId| !spec_is_role_specific(id) implies #[trigger] spec_lookup(all, id)
            == spec_lookup(common, id) by {
            assert forall|i: int| 0 <= i < added.len() implies #[trigger] added[i].id != id by {
                assert(spec_is_role_specific(added[i].id));
            }
            lemma_lookup_append_missing(common, added, id);
        }
        lemma_read_written_integers(value.initial_max_stream_data, value.idle_timeout, 0);
        lemma_read_written_integers(value.initial_max_data, 0, 0);
        if let Some(v) = value.initial_max_bidi_streams {
            lemma_read_written_integers(0, v, 0);
        }
        if let Some(v) = value.initial_max_uni_streams {
            lemma_read_written_integers(0, v, 0);
        }
        if let Some(v) = value.max_packet_size {
            lemma_read_written_integers(0, v, 0);
        }
        if let Some(v) = value.ack_delay_exponent {
            lemma_read_written_integers(0, 0, v);
        }
        assert(spec_lookup(all, TransportParameterId::InitialMaxStreamData) == spec_lookup(common, TransportParameterId::InitialMaxStreamData));
        assert(spec_lookup(all, TransportParameterId::InitialMaxData) == spec_lookup(common, TransportParameterId::InitialMaxData));
        assert(spec_lookup(all, TransportParameterId::IdleTimeout) == spec_lookup(common, TransportParameterId::IdleTimeout));
        assert(spec_lookup(all, TransportParameterId::InitialMaxBidiStreams) == spec_lookup(common, TransportParameterId::InitialMaxBidiStreams));
        assert(spec_lookup(all, TransportParameterId::InitialMaxUniStreams) == spec_lookup(common, TransportParameterId::InitialMaxUniStreams));
        assert(spec_lookup(all, TransportParameterId::MaxPacketSize) == spec_lookup(common, TransportParameterId::MaxPacketSize));
        assert(spec_lookup(all, TransportParameterId::AckDelayExponent) == spec_lookup(common, TransportParameterId::AckDelayExponent));
        assert(spec_lookup(all, TransportParameterId::DisableMigration) == spec_lookup(common, TransportParameterId::DisableMigration));
        assert(spec_fields_from_parameters::<M, R>(value.message_parameters, all) == Ok::<TransportParametersView<<M as View>::V, <R as View>::V>, Error>(value));
    }
}

/// The numbers the identifiers are sent as, in the first two bytes of a parameter, most
/// significant first: 0 for the initial maximum stream data, 1 for the initial maximum data,
/// 2 for the initial maximum bidirectional streams, 3 for the idle timeout, 4 for the preferred
/// address, 5 for the maximum packet size, 6 for the stateless reset token, 7 for the ack delay
/// exponent, 8 for the initial maximum unidirectional streams and 9 for disabling migration.
/// Reading takes each of these numbers back to its identifier and refuses every other number.
pub proof fn lemma_transport_parameter_id_numbers(parameter: TransportParameterView, code: u16)
    ensures
        ({
            let number: u8 = match parameter.id {
                TransportParameterId::InitialMaxStreamData => 0u8,
                TransportParameterId::InitialMaxData => 1u8,
                TransportParameterId::InitialMaxBidiStreams => 2u8,
                TransportParameterId::IdleTimeout => 3u8,
                TransportParameterId::PreferredAddress => 4u8,
                TransportParameterId::MaxPacketSize => 5u8,
                TransportParameterId::StatelessResetToken => 6u8,
                TransportParameterId::AckDelayExponent => 7u8,
                TransportParameterId::InitialMaxUniStreams => 8u8,
                TransportParameterId::DisableMigration => 9u8,
            };
            let written = spec_write_transport_parameter(parameter);
            &&& written.len() >= 2
            &&& written[0] == 0
            &&& written[1] == number
            &&& spec_id_code(parameter.id) == number as u16
        }),
        spec_id_of_code(code) == if code == 0 {
            Ok(TransportParameterId::InitialMaxStreamData)
        } else if code == 1 {
            Ok(TransportParameterId::InitialMaxData)
        } else if code == 2 {
            Ok(TransportParameterId::InitialMaxBidiStreams)
        } else if code == 3 {
            Ok(TransportParameterId::IdleTimeout)
        } else if code == 4 {
            Ok(TransportParameterId::PreferredAddress)
        } else if code == 5 {
            Ok(TransportParameterId::MaxPacketSize)
        } else if code == 6 {
            Ok(TransportParameterId::StatelessResetToken)
        } else if code == 7 {
            Ok(TransportParameterId::AckDelayExponent)
        } else if code == 8 {
            Ok(TransportParameterId::InitialMaxUniStreams)
        } else if code == 9 {
            Ok(TransportParameterId::DisableMigration)
        } else {
            Err(Error::InvalidTransportParameterId(code))
        },
{
    crate::primitives::byte_order_primitives::lemma_be_bytes_two(spec_id_code(parameter.id) as nat);
    crate::primitives::byte_order_primitives::lemma_be_bytes_len(parameter.value.len(), 2);
}

} // verus!
