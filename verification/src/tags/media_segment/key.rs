//! The tag that tells how the segments are encrypted.
use vstd::prelude::*;
use crate::attribute::{
    attribute_wf, attributes_wf, first_outside, has_name, is_first_outside,
    lemma_attributes_round_trip,
    lemma_first_outside_is, lemma_first_outside_push, lemma_get_empty, lemma_get_push,
    lemma_wf_push,
    push_attributes, spec_bare_value, spec_format_attributes, spec_get,
    spec_parse_attributes, spec_quoted_value, texts, views, Attribute, AttributeList,
    AttributeView,
};
use crate::error::{Cause, Error, ErrorView};
use crate::text::{push_str, string_of, to_chars};
use crate::types::initialization_vector::{lemma_iv_round_trip, spec_iv_text, spec_parse_iv};
use crate::types::{EncryptionMethod, InitializationVector, ProtocolVersion};
use crate::utils::{
    is_quotable, is_quotable_text, lemma_tag_value_of_text, spec_tag_value, spec_value_text,
    tag_value_in, viewed,
};

verus! {

/// The mathematical value of an [`ExtXKey`].
pub struct ExtXKeyView {
    /// How the segments are encrypted.
    pub method: EncryptionMethod,
    /// Where the key is to be had.
    pub uri: Option<Seq<char>>,
    /// The initialization vector to use with the key.
    pub iv: Option<Seq<u8>>,
    /// How the key is represented.
    pub key_format: Option<Seq<char>>,
    /// Which versions of the key format the key complies with.
    pub key_format_versions: Option<Seq<char>>,
}

/// The tag `#EXT-X-KEY:<attributes>`: how the segments that follow are
/// encrypted, and where their key is to be had.
#[derive(Debug, PartialEq, Eq)]
pub struct ExtXKey {
    method: EncryptionMethod,
    uri: Option<String>,
    iv: Option<InitializationVector>,
    key_format: Option<String>,
    key_format_versions: Option<String>,
}

/// The text of a string that may be absent.
pub open spec fn text_of(o: Option<String>) -> Option<Seq<char>> {
    match o {
        Some(s) => Some(s@),
        None => None,
    }
}

/// The bytes of an initialization vector that may be absent.
pub open spec fn bytes_of(o: Option<InitializationVector>) -> Option<Seq<u8>> {
    match o {
        Some(iv) => Some(iv@),
        None => None,
    }
}

impl View for ExtXKey {
    type V = ExtXKeyView;

    closed spec fn view(&self) -> ExtXKeyView {
        ExtXKeyView {
            method: self.method,
            uri: text_of(self.uri),
            iv: bytes_of(self.iv),
            key_format: text_of(self.key_format),
            key_format_versions: text_of(self.key_format_versions),
        }
    }
}

/// Whether `k` is the value of a tag that can be made. Without
/// encryption the tag has no other attribute; with encryption it has a
/// URI. No text holds a double quote, a line feed or a carriage return,
/// and an initialization vector has sixteen bytes.
pub open spec fn key_wf(k: ExtXKeyView) -> bool {
    &&& k.method == EncryptionMethod::Plain ==> k.uri is None && k.iv is None && k.key_format
        is None && k.key_format_versions is None
    &&& k.method != EncryptionMethod::Plain ==> k.uri is Some
    &&& k.uri matches Some(u) ==> is_quotable(u)
    &&& k.iv matches Some(iv) ==> iv.len() == 16
    &&& k.key_format matches Some(f) ==> is_quotable(f)
    &&& k.key_format_versions matches Some(f) ==> is_quotable(f)
}

/// The name of the attribute that holds the method.
pub open spec fn name_method() -> Seq<char> {
    "METHOD"@
}

/// The name of the attribute that holds the URI.
pub open spec fn name_uri() -> Seq<char> {
    "URI"@
}

/// The name of the attribute that holds the initialization vector.
pub open spec fn name_iv() -> Seq<char> {
    "IV"@
}

/// The name of the attribute that holds the key format.
pub open spec fn name_key_format() -> Seq<char> {
    "KEYFORMAT"@
}

/// The name of the attribute that holds the key format versions.
pub open spec fn name_key_format_versions() -> Seq<char> {
    "KEYFORMATVERSIONS"@
}

/// The names of the attributes that the tag allows.
pub open spec fn key_names() -> Seq<Seq<char>> {
    seq![
        name_method(),
        name_uri(),
        name_iv(),
        name_key_format(),
        name_key_format_versions(),
    ]
}

/// An attribute whose value is a bare token.
pub open spec fn bare(name: Seq<char>, value: Seq<char>) -> AttributeView {
    AttributeView { name, value, quoted: false }
}

/// An attribute whose value is a quoted string.
pub open spec fn quoted(name: Seq<char>, value: Seq<char>) -> AttributeView {
    AttributeView { name, value, quoted: true }
}

/// `list` with one more attribute at its end where `value` is present.
pub open spec fn with_quoted(
    list: Seq<AttributeView>,
    name: Seq<char>,
    value: Option<Seq<char>>,
) -> Seq<AttributeView> {
    match value {
        Some(v) => list.push(quoted(name, v)),
        None => list,
    }
}

/// `list` with the initialization vector at its end where it is present.
pub open spec fn with_iv(list: Seq<AttributeView>, iv: Option<Seq<u8>>) -> Seq<AttributeView> {
    match iv {
        Some(bytes) => list.push(bare(name_iv(), spec_iv_text(bytes))),
        None => list,
    }
}

/// The attributes of the tag, in the order in which they are written:
/// the method, and then each of the URI, the initialization vector, the
/// key format and the key format versions that is present.
pub open spec fn key_attributes(k: ExtXKeyView) -> Seq<AttributeView> {
    let l0 = seq![bare(name_method(), k.method.spec_text())];
    let l1 = with_quoted(l0, name_uri(), k.uri);
    let l2 = with_iv(l1, k.iv);
    let l3 = with_quoted(l2, name_key_format(), k.key_format);
    with_quoted(l3, name_key_format_versions(), k.key_format_versions)
}

/// What an attribute that may be absent, and must be a quoted string
/// where it is present, holds.
pub open spec fn spec_optional_quoted(o: Option<AttributeView>) -> Result<
    Option<Seq<char>>,
    ErrorView,
> {
    match o {
        None => Ok(None),
        Some(a) => match spec_quoted_value(a) {
            Ok(v) => Ok(Some(v)),
            Err(e) => Err(e),
        },
    }
}

/// What the attribute of the initialization vector, which may be absent,
/// holds.
pub open spec fn spec_optional_iv(o: Option<AttributeView>) -> Result<Option<Seq<u8>>, ErrorView> {
    match o {
        None => Ok(None),
        Some(a) => match spec_bare_value(a) {
            Err(e) => Err(e),
            Ok(v) => match spec_parse_iv(v) {
                Ok(bytes) => Ok(Some(bytes)),
                Err(e) => Err(e),
            },
        },
    }
}

/// What the attribute of the method holds.
pub open spec fn spec_method_of(a: AttributeView) -> Result<EncryptionMethod, ErrorView> {
    match spec_bare_value(a) {
        Err(e) => Err(e),
        Ok(v) => EncryptionMethod::spec_parse(v),
    }
}

/// What the attributes of an encrypted key hold beside the method.
pub open spec fn spec_encrypted_key(
    list: Seq<AttributeView>,
    method: EncryptionMethod,
) -> Result<ExtXKeyView, ErrorView> {
    match spec_get(list, name_uri()) {
        None => Err(ErrorView::MissingAttribute { name: name_uri() }),
        Some(a) => match spec_quoted_value(a) {
            Err(e) => Err(e),
            Ok(uri) => match spec_optional_iv(spec_get(list, name_iv())) {
                Err(e) => Err(e),
                Ok(iv) => match spec_optional_quoted(spec_get(list, name_key_format())) {
                    Err(e) => Err(e),
                    Ok(key_format) => match spec_optional_quoted(
                        spec_get(list, name_key_format_versions()),
                    ) {
                        Err(e) => Err(e),
                        Ok(key_format_versions) => Ok(
                            ExtXKeyView {
                                method,
                                uri: Some(uri),
                                iv,
                                key_format,
                                key_format_versions,
                            },
                        ),
                    },
                },
            },
        },
    }
}

/// What a list of attributes means as the value of this tag.
///
/// The first attribute, in the order of writing, whose name the tag does
/// not know is unexpected. The method is required and must be one of
/// the three literals. Without encryption any other attribute is
/// unexpected, the first in the order of writing being named. With
/// encryption the URI is required; the URI, the key format and the key
/// format versions must be quoted strings, and the initialization vector
/// a bare hexadecimal sequence. The attributes are examined in the order
/// method, URI, initialization vector, key format, key format versions,
/// and the first that fails decides the error.
pub open spec fn spec_key_from_attributes(list: Seq<AttributeView>) -> Result<
    ExtXKeyView,
    ErrorView,
> {
    let unknown = first_outside(list, key_names());
    if 0 <= unknown < list.len() {
        Err(ErrorView::UnexpectedAttribute { name: list[unknown].name })
    } else {
        match spec_get(list, name_method()) {
            None => Err(ErrorView::MissingAttribute { name: name_method() }),
            Some(m) => match spec_method_of(m) {
                Err(e) => Err(e),
                Ok(method) => if method == EncryptionMethod::Plain {
                    let other = first_outside(list, seq![name_method()]);
                    if 0 <= other < list.len() {
                        Err(ErrorView::UnexpectedAttribute { name: list[other].name })
                    } else {
                        Ok(
                            ExtXKeyView {
                                method,
                                uri: None,
                                iv: None,
                                key_format: None,
                                key_format_versions: None,
                            },
                        )
                    }
                } else {
                    spec_encrypted_key(list, method)
                },
            },
        }
    }
}

impl ExtXKey {
    /// The text that a line of this tag begins with.
    pub const PREFIX: &'static str = "#EXT-X-KEY";

    /// What holds of every tag of this kind: see [`key_wf`].
    #[verifier::type_invariant]
    pub open spec fn wf(&self) -> bool {
        key_wf(self@)
    }

    /// The text of the tag: the prefix, a `:` and the attribute list.
    pub open spec fn spec_text(k: ExtXKeyView) -> Seq<char> {
        spec_value_text(Self::PREFIX@, spec_format_attributes(key_attributes(k)))
    }

    /// What a line gives when read as this tag: what its attribute list
    /// means, or the error of the first step that fails.
    pub open spec fn spec_parse(input: Seq<char>) -> Result<ExtXKeyView, ErrorView> {
        match spec_tag_value(input, Self::PREFIX@) {
            Err(e) => Err(e),
            Ok(value) => match spec_parse_attributes(value) {
                Err(e) => Err(e),
                Ok(list) => spec_key_from_attributes(list),
            },
        }
    }

    /// The version that the tag requires: the fifth where it names a key
    /// format or key format versions, else the second where it has an
    /// initialization vector, and else the lowest.
    pub open spec fn spec_requires_version(k: ExtXKeyView) -> ProtocolVersion {
        if k.key_format is Some || k.key_format_versions is Some {
            ProtocolVersion::V5
        } else if k.iv is Some {
            ProtocolVersion::V2
        } else {
            ProtocolVersion::V1
        }
    }

    /// Makes the tag that says that the segments are not encrypted.
    pub fn unencrypted() -> (k: ExtXKey)
        ensures
            k@ == (ExtXKeyView {
                method: EncryptionMethod::Plain,
                uri: None,
                iv: None,
                key_format: None,
                key_format_versions: None,
            }),
            k.wf(),
    {
        ExtXKey {
            method: EncryptionMethod::Plain,
            uri: None,
            iv: None,
            key_format: None,
            key_format_versions: None,
        }
    }

    /// Makes the tag that says that the segments are encrypted with
    /// `method`, with a key that is to be had at `uri`.
    ///
    /// Without encryption there is no key: the URI is then an unexpected
    /// attribute. A URI that holds a double quote, a line feed or a
    /// carriage return is refused.
    pub fn new(method: EncryptionMethod, uri: &str) -> (r: Result<ExtXKey, Error>)
        ensures
            match r {
                Ok(k) => method != EncryptionMethod::Plain && is_quotable(uri@) && k@ == (
                ExtXKeyView {
                    method,
                    uri: Some(uri@),
                    iv: None,
                    key_format: None,
                    key_format_versions: None,
                }) && k.wf(),
                Err(e) => e@ == if method == EncryptionMethod::Plain {
                    ErrorView::UnexpectedAttribute { name: name_uri() }
                } else {
                    crate::error::invalid(uri@, Cause::ForbiddenCharacter)
                } && (method == EncryptionMethod::Plain || !is_quotable(uri@)),
            },
    {
        if method == EncryptionMethod::Plain {
            return Err(Error::UnexpectedAttribute { name: "URI".to_owned() });
        }
        let v = to_chars(uri);
        if !is_quotable_text(&v) {
            return Err(Error::invalid_input(string_of(&v), Cause::ForbiddenCharacter));
        }
        Ok(
            ExtXKey {
                method,
                uri: Some(string_of(&v)),
                iv: None,
                key_format: None,
                key_format_versions: None,
            },
        )
    }

    /// Returns the tag with the given initialization vector. Without
    /// encryption the vector is an unexpected attribute.
    pub fn with_iv(self, iv: InitializationVector) -> (r: Result<ExtXKey, Error>)
        ensures
            match r {
                Ok(k) => self@.method != EncryptionMethod::Plain && k@ == (ExtXKeyView {
                    iv: Some(iv@),
                    ..self@
                }) && k.wf(),
                Err(e) => self@.method == EncryptionMethod::Plain && e@
                    == (ErrorView::UnexpectedAttribute { name: name_iv() }),
            },
    {
        proof {
            use_type_invariant(&self);
            iv.lemma_has_sixteen_bytes();
        }
        if self.method == EncryptionMethod::Plain {
            return Err(Error::UnexpectedAttribute { name: "IV".to_owned() });
        }
        Ok(
            ExtXKey {
                method: self.method,
                uri: self.uri,
                iv: Some(iv),
                key_format: self.key_format,
                key_format_versions: self.key_format_versions,
            },
        )
    }

    /// Returns the tag with the given key format. Without encryption the
    /// key format is an unexpected attribute. A format that holds a
    /// double quote, a line feed or a carriage return is refused.
    pub fn with_key_format(self, format: &str) -> (r: Result<ExtXKey, Error>)
        ensures
            match r {
                Ok(k) => self@.method != EncryptionMethod::Plain && is_quotable(format@) && k@ == (
                ExtXKeyView { key_format: Some(format@), ..self@ }) && k.wf(),
                Err(e) => e@ == if self@.method == EncryptionMethod::Plain {
                    ErrorView::UnexpectedAttribute { name: name_key_format() }
                } else {
                    crate::error::invalid(format@, Cause::ForbiddenCharacter)
                } && (self@.method == EncryptionMethod::Plain || !is_quotable(format@)),
            },
    {
        proof {
            use_type_invariant(&self);
        }
        if self.method == EncryptionMethod::Plain {
            return Err(Error::UnexpectedAttribute { name: "KEYFORMAT".to_owned() });
        }
        let v = to_chars(format);
        if !is_quotable_text(&v) {
            return Err(Error::invalid_input(string_of(&v), Cause::ForbiddenCharacter));
        }
        Ok(
            ExtXKey {
                method: self.method,
                uri: self.uri,
                iv: self.iv,
                key_format: Some(string_of(&v)),
                key_format_versions: self.key_format_versions,
            },
        )
    }

    /// Returns the tag with the given key format versions. Without
    /// encryption they are an unexpected attribute. A text that holds a
    /// double quote, a line feed or a carriage return is refused.
    pub fn with_key_format_versions(self, versions: &str) -> (r: Result<ExtXKey, Error>)
        ensures
            match r {
                Ok(k) => self@.method != EncryptionMethod::Plain && is_quotable(versions@) && k@
                    == (ExtXKeyView { key_format_versions: Some(versions@), ..self@ }) && k.wf(),
                Err(e) => e@ == if self@.method == EncryptionMethod::Plain {
                    ErrorView::UnexpectedAttribute { name: name_key_format_versions() }
                } else {
                    crate::error::invalid(versions@, Cause::ForbiddenCharacter)
                } && (self@.method == EncryptionMethod::Plain || !is_quotable(versions@)),
            },
    {
        proof {
            use_type_invariant(&self);
        }
        if self.method == EncryptionMethod::Plain {
            return Err(Error::UnexpectedAttribute { name: "KEYFORMATVERSIONS".to_owned() });
        }
        let v = to_chars(versions);
        if !is_quotable_text(&v) {
            return Err(Error::invalid_input(string_of(&v), Cause::ForbiddenCharacter));
        }
        Ok(
            ExtXKey {
                method: self.method,
                uri: self.uri,
                iv: self.iv,
                key_format: self.key_format,
                key_format_versions: Some(string_of(&v)),
            },
        )
    }

    /// Reads a list of attributes as the value of this tag.
    pub fn from_attributes(list: &AttributeList) -> (r: Result<ExtXKey, Error>)
        ensures
            viewed(r) == spec_key_from_attributes(list@),
            r matches Ok(k) ==> k.wf(),
    {
        let mut allowed: Vec<Vec<char>> = Vec::new();
        allowed.push(to_chars("METHOD"));
        allowed.push(to_chars("URI"));
        allowed.push(to_chars("IV"));
        allowed.push(to_chars("KEYFORMAT"));
        allowed.push(to_chars("KEYFORMATVERSIONS"));
        assert(texts(allowed@) =~= key_names());
        let unknown = list.first_outside(&allowed);
        if unknown < list.len() {
            return Err(Error::UnexpectedAttribute { name: list.item(unknown).name().clone() });
        }
        let method = match list.get("METHOD") {
            None => {
                return Err(Error::MissingAttribute { name: "METHOD".to_owned() });
            },
            Some(a) => {
                let value = a.bare_value()?;
                let chars = to_chars(value.as_str());
                EncryptionMethod::parse_chars(&chars)?
            },
        };
        if method == EncryptionMethod::Plain {
            let mut only: Vec<Vec<char>> = Vec::new();
            only.push(to_chars("METHOD"));
            assert(texts(only@) =~= seq![name_method()]);
            let other = list.first_outside(&only);
            if other < list.len() {
                return Err(Error::UnexpectedAttribute { name: list.item(other).name().clone() });
            }
            return Ok(
                ExtXKey {
                    method,
                    uri: None,
                    iv: None,
                    key_format: None,
                    key_format_versions: None,
                },
            );
        }
        let uri = match list.get("URI") {
            None => {
                return Err(Error::MissingAttribute { name: "URI".to_owned() });
            },
            Some(a) => a.quoted_value()?.clone(),
        };
        let iv = match list.get("IV") {
            None => None,
            Some(a) => {
                let value = a.bare_value()?;
                let parsed = InitializationVector::parse(value.as_str())?;
                proof {
                    parsed.lemma_has_sixteen_bytes();
                }
                Some(parsed)
            },
        };
        let key_format = match list.get("KEYFORMAT") {
            None => None,
            Some(a) => Some(a.quoted_value()?.clone()),
        };
        let key_format_versions = match list.get("KEYFORMATVERSIONS") {
            None => None,
            Some(a) => Some(a.quoted_value()?.clone()),
        };
        Ok(ExtXKey { method, uri: Some(uri), iv, key_format, key_format_versions })
    }

    /// Reads the line `v` as this tag.
    pub fn parse_in(v: &Vec<char>) -> (r: Result<ExtXKey, Error>)
        ensures
            viewed(r) == Self::spec_parse(v@),
            r matches Ok(k) ==> k.wf(),
    {
        let at = tag_value_in(v, Self::PREFIX)?;
        let list = AttributeList::parse_in(v, at, v.len())?;
        Self::from_attributes(&list)
    }

    /// Reads a line as this tag.
    pub fn parse(input: &str) -> (r: Result<ExtXKey, Error>)
        ensures
            viewed(r) == Self::spec_parse(input@),
            r matches Ok(k) ==> k.wf(),
    {
        let v = to_chars(input);
        Self::parse_in(&v)
    }

    /// Appends the text of the tag to `out`.
    pub fn push_text(&self, out: &mut Vec<char>)
        ensures
            final(out)@ == old(out)@ + Self::spec_text(self@),
    {
        let mut items: Vec<Attribute> = Vec::new();
        items.push(Attribute::new("METHOD".to_owned(), self.method.as_str().to_owned(), false));
        assert(views(items@) =~= seq![bare(name_method(), self@.method.spec_text())]);
        let ghost l0 = views(items@);
        match &self.uri {
            Some(u) => {
                items.push(Attribute::new("URI".to_owned(), u.clone(), true));
                assert(views(items@) =~= l0.push(quoted(name_uri(), u@)));
            },
            None => {},
        }
        let ghost l1 = views(items@);
        match &self.iv {
            Some(iv) => {
                items.push(Attribute::new("IV".to_owned(), iv.to_string(), false));
                assert(views(items@) =~= l1.push(bare(name_iv(), spec_iv_text(iv@))));
            },
            None => {},
        }
        let ghost l2 = views(items@);
        match &self.key_format {
            Some(f) => {
                items.push(Attribute::new("KEYFORMAT".to_owned(), f.clone(), true));
                assert(views(items@) =~= l2.push(quoted(name_key_format(), f@)));
            },
            None => {},
        }
        let ghost l3 = views(items@);
        match &self.key_format_versions {
            Some(f) => {
                items.push(Attribute::new("KEYFORMATVERSIONS".to_owned(), f.clone(), true));
                assert(views(items@) =~= l3.push(quoted(name_key_format_versions(), f@)));
            },
            None => {},
        }
        push_str(out, Self::PREFIX);
        out.push(':');
        push_attributes(out, &items);
    }

    /// Returns the text of the tag.
    pub fn to_string(&self) -> (s: String)
        ensures
            s@ == Self::spec_text(self@),
    {
        let mut out: Vec<char> = Vec::new();
        self.push_text(&mut out);
        string_of(&out)
    }

    /// Returns how the segments are encrypted.
    pub fn method(&self) -> (m: EncryptionMethod)
        ensures
            m == self@.method,
    {
        self.method
    }

    /// Returns where the key is to be had.
    pub fn uri(&self) -> (r: &Option<String>)
        ensures
            text_of(*r) == self@.uri,
    {
        &self.uri
    }

    /// Returns the initialization vector.
    pub fn iv(&self) -> (r: Option<InitializationVector>)
        ensures
            bytes_of(r) == self@.iv,
    {
        self.iv
    }

    /// Returns how the key is represented.
    pub fn key_format(&self) -> (r: &Option<String>)
        ensures
            text_of(*r) == self@.key_format,
    {
        &self.key_format
    }

    /// Returns the versions of the key format that the key complies with.
    pub fn key_format_versions(&self) -> (r: &Option<String>)
        ensures
            text_of(*r) == self@.key_format_versions,
    {
        &self.key_format_versions
    }

    /// Returns the protocol compatibility version that this tag requires.
    pub fn requires_version(&self) -> (v: ProtocolVersion)
        ensures
            v == Self::spec_requires_version(self@),
    {
        if self.key_format.is_some() || self.key_format_versions.is_some() {
            ProtocolVersion::V5
        } else if self.iv.is_some() {
            ProtocolVersion::V2
        } else {
            ProtocolVersion::V1
        }
    }
}

/// The names of the attributes differ from one another, and can be
/// written as names.
proof fn lemma_key_names()
    ensures
        name_method().len() == 6,
        name_uri().len() == 3,
        name_iv().len() == 2,
        name_key_format().len() == 9,
        name_key_format_versions().len() == 17,
        forall|n: int, i: int|
            0 <= n < 5 && 0 <= i < key_names()[n].len() ==> {
                let c = #[trigger] key_names()[n][i];
                c != '=' && c != ',' && c != '"'
            },
{
    reveal_strlit("METHOD");
    reveal_strlit("URI");
    reveal_strlit("IV");
    reveal_strlit("KEYFORMAT");
    reveal_strlit("KEYFORMATVERSIONS");
}

/// What is known of a list of key attributes while it is built: it can
/// be written and read back, every name in it is one of the tag, and
/// `present` tells which names it holds and with what.
spec fn stage(
    list: Seq<AttributeView>,
    method: AttributeView,
    uri: Option<AttributeView>,
    iv: Option<AttributeView>,
    key_format: Option<AttributeView>,
    key_format_versions: Option<AttributeView>,
) -> bool {
    &&& attributes_wf(list)
    &&& is_first_outside(list, key_names(), list.len() as int)
    &&& spec_get(list, name_method()) == Some(method)
    &&& spec_get(list, name_uri()) == uri
    &&& spec_get(list, name_iv()) == iv
    &&& spec_get(list, name_key_format()) == key_format
    &&& spec_get(list, name_key_format_versions()) == key_format_versions
    &&& has_name(list, name_method())
    &&& has_name(list, name_uri()) == (uri is Some)
    &&& has_name(list, name_iv()) == (iv is Some)
    &&& has_name(list, name_key_format()) == (key_format is Some)
    &&& has_name(list, name_key_format_versions()) == (key_format_versions is Some)
}

/// What looking each name of the tag up finds after an attribute was
/// added at the end of a list.
proof fn lemma_push_all_names(list: Seq<AttributeView>, a: AttributeView)
    requires
        is_first_outside(list, key_names(), list.len() as int),
        key_names().contains(a.name),
    ensures
        is_first_outside(list.push(a), key_names(), list.len() as int + 1),
        forall|n: int|
            0 <= n < 5 ==> has_name(list.push(a), #[trigger] key_names()[n]) == (has_name(
                list,
                key_names()[n],
            ) || a.name == key_names()[n]),
        forall|n: int|
            0 <= n < 5 ==> spec_get(list.push(a), #[trigger] key_names()[n]) == if has_name(
                list,
                key_names()[n],
            ) {
                spec_get(list, key_names()[n])
            } else if a.name == key_names()[n] {
                Some(a)
            } else {
                None
            },
{
    lemma_first_outside_push(list, a, key_names());
    lemma_get_push(list, a, name_method());
    lemma_get_push(list, a, name_uri());
    lemma_get_push(list, a, name_iv());
    lemma_get_push(list, a, name_key_format());
    lemma_get_push(list, a, name_key_format_versions());
}

/// The attributes of a key can be written and read back, and hold under
/// each name what the key holds.
proof fn lemma_key_attributes(k: ExtXKeyView)
    requires
        key_wf(k),
    ensures
        stage(
            key_attributes(k),
            bare(name_method(), k.method.spec_text()),
            match k.uri {
                Some(u) => Some(quoted(name_uri(), u)),
                None => None,
            },
            match k.iv {
                Some(b) => Some(bare(name_iv(), spec_iv_text(b))),
                None => None,
            },
            match k.key_format {
                Some(f) => Some(quoted(name_key_format(), f)),
                None => None,
            },
            match k.key_format_versions {
                Some(f) => Some(quoted(name_key_format_versions(), f)),
                None => None,
            },
        ),
        k.method == EncryptionMethod::Plain ==> key_attributes(k).len() == 1,
{
    lemma_key_names();
    k.method.lemma_round_trip();
    let names = key_names();
    assert(names[0] == name_method() && names[1] == name_uri() && names[2] == name_iv()
        && names[3] == name_key_format() && names[4] == name_key_format_versions());
    assert(names.contains(name_method()) && names.contains(name_uri()) && names.contains(
        name_iv(),
    ) && names.contains(name_key_format()) && names.contains(name_key_format_versions()));
    let m = bare(name_method(), k.method.spec_text());
    let empty = Seq::<AttributeView>::empty();
    let l0 = seq![m];
    assert(attribute_wf(m)) by {
        assert forall|i: int| 0 <= i < m.name.len() implies {
            let c = #[trigger] m.name[i];
            c != '=' && c != ',' && c != '"'
        } by {
            assert(m.name[i] == names[0][i]);
        }
    }
    lemma_get_empty(name_method());
    lemma_get_empty(name_uri());
    lemma_get_empty(name_iv());
    lemma_get_empty(name_key_format());
    lemma_get_empty(name_key_format_versions());
    lemma_wf_push(empty, m);
    lemma_push_all_names(empty, m);
    let l1 = with_quoted(l0, name_uri(), k.uri);
    let uri = match k.uri {
        Some(u) => Some(quoted(name_uri(), u)),
        None => None,
    };
    if let Some(u) = k.uri {
        let a = quoted(name_uri(), u);
        assert(attribute_wf(a)) by {
            assert forall|i: int| 0 <= i < a.name.len() implies {
                let c = #[trigger] a.name[i];
                c != '=' && c != ',' && c != '"'
            } by {
                assert(a.name[i] == names[1][i]);
            }
        }
        lemma_wf_push(l0, a);
        lemma_push_all_names(l0, a);
    }
    let l2 = with_iv(l1, k.iv);
    let iv = match k.iv {
        Some(b) => Some(bare(name_iv(), spec_iv_text(b))),
        None => None,
    };
    if let Some(b) = k.iv {
        let a = bare(name_iv(), spec_iv_text(b));
        lemma_iv_round_trip(b);
        assert(attribute_wf(a)) by {
            assert forall|i: int| 0 <= i < a.name.len() implies {
                let c = #[trigger] a.name[i];
                c != '=' && c != ',' && c != '"'
            } by {
                assert(a.name[i] == names[2][i]);
            }
        }
        lemma_wf_push(l1, a);
        lemma_push_all_names(l1, a);
    }
    let l3 = with_quoted(l2, name_key_format(), k.key_format);
    let key_format = match k.key_format {
        Some(f) => Some(quoted(name_key_format(), f)),
        None => None,
    };
    if let Some(f) = k.key_format {
        let a = quoted(name_key_format(), f);
        assert(attribute_wf(a)) by {
            assert forall|i: int| 0 <= i < a.name.len() implies {
                let c = #[trigger] a.name[i];
                c != '=' && c != ',' && c != '"'
            } by {
                assert(a.name[i] == names[3][i]);
            }
        }
        lemma_wf_push(l2, a);
        lemma_push_all_names(l2, a);
    }
    if let Some(f) = k.key_format_versions {
        let a = quoted(name_key_format_versions(), f);
        assert(attribute_wf(a)) by {
            assert forall|i: int| 0 <= i < a.name.len() implies {
                let c = #[trigger] a.name[i];
                c != '=' && c != ',' && c != '"'
            } by {
                assert(a.name[i] == names[4][i]);
            }
        }
        lemma_wf_push(l3, a);
        lemma_push_all_names(l3, a);
    }
}

/// The attributes of a key mean the key.
proof fn lemma_key_from_attributes(k: ExtXKeyView)
    requires
        key_wf(k),
    ensures
        spec_key_from_attributes(key_attributes(k)) == Ok::<ExtXKeyView, ErrorView>(k),
{
    let list = key_attributes(k);
    lemma_key_attributes(k);
    lemma_key_names();
    k.method.lemma_round_trip();
    lemma_first_outside_is(list, key_names(), list.len() as int);
    if k.method == EncryptionMethod::Plain {
        let only = seq![name_method()];
        assert(is_first_outside(list, only, 1)) by {
            assert(only[0] == name_method());
        }
        lemma_first_outside_is(list, only, 1);
    } else {
        if let Some(b) = k.iv {
            lemma_iv_round_trip(b);
        }
    }
}

/// What a list of attributes means as a key is the value of a tag that
/// can be made.
proof fn lemma_key_from_attributes_is_wf(list: Seq<AttributeView>)
    ensures
        spec_key_from_attributes(list) matches Ok(k) ==> key_wf(k),
{
}

impl ExtXKey {
    /// What a line gives when read as this tag is the value of a tag that
    /// can be made.
    pub proof fn lemma_parsed_is_wf(input: Seq<char>)
        ensures
            Self::spec_parse(input) matches Ok(k) ==> key_wf(k),
    {
        if let Ok(value) = spec_tag_value(input, Self::PREFIX@) {
            if let Ok(list) = spec_parse_attributes(value) {
                lemma_key_from_attributes_is_wf(list);
            }
        }
    }

    /// Reading the text of the tag gives its value back.
    pub proof fn lemma_round_trip(k: ExtXKeyView)
        requires
            key_wf(k),
        ensures
            Self::spec_parse(Self::spec_text(k)) == Ok::<ExtXKeyView, ErrorView>(k),
    {
        let list = key_attributes(k);
        lemma_key_attributes(k);
        lemma_tag_value_of_text(Self::PREFIX@, spec_format_attributes(list));
        lemma_attributes_round_trip(list);
        lemma_key_from_attributes(k);
    }
}

impl Clone for ExtXKey {
    fn clone(&self) -> (r: ExtXKey)
        ensures
            r@ == self@,
    {
        proof {
            use_type_invariant(self);
        }
        ExtXKey {
            method: self.method,
            uri: clone_text(&self.uri),
            iv: self.iv,
            key_format: clone_text(&self.key_format),
            key_format_versions: clone_text(&self.key_format_versions),
        }
    }
}

/// Copies a string that may be absent.
fn clone_text(o: &Option<String>) -> (r: Option<String>)
    ensures
        text_of(r) == text_of(*o),
{
    match o {
        Some(s) => Some(s.clone()),
        None => None,
    }
}

impl std::str::FromStr for ExtXKey {
    type Err = Error;

    fn from_str(input: &str) -> (r: Result<ExtXKey, Error>)
        ensures
            viewed(r) == ExtXKey::spec_parse(input@),
            r matches Ok(k) ==> k.wf(),
    {
        ExtXKey::parse(input)
    }
}

} // verus!
