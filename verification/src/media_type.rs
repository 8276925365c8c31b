//! Representation, parsing and serialization of layer media types.
//!
//! A media type is a base string from the reserved namespace
//! `application/vnd.ollama.image.*`, optionally followed by `;`-separated
//! `key=value` parameters.  The `tensor` base carries a numeric shape
//! parameter with a comma-separated sub-grammar of its own.  Anything
//! unrecognized inside the reserved namespace is kept verbatim as `Unknown`;
//! a base outside the reserved namespace is a hard parse error.

use vstd::prelude::*;

use crate::text::{
    find_idx, is_prefix, is_space, lower_seq, sep_free, split_on, trim_spec, u64_str_val,
    valid_u64_str, eq_ignore_case, lemma_find_idx, lemma_find_idx_at, lemma_split_at_sep,
    lemma_split_len, lemma_split_sep_free, lemma_trim_of_trimmed, lemma_trim_space_prefix,
    parse_u64_str, split_str, str_eq, str_starts_with, trim_str,
};
use vstd::string::StringExecFns;

verus! {

/// Structured representation of a tensor layer's numeric shape.
#[derive(Debug, Clone, PartialEq, Eq)]
pub struct TensorShape(pub Vec<u64>);

impl View for TensorShape {
    type V = Seq<u64>;

    open spec fn view(&self) -> Seq<u64> {
        self.0@
    }
}

/// The textual form of a shape: its dimensions as decimal numerals joined by
/// commas.
pub open spec fn shape_str(dims: Seq<u64>) -> Seq<char>
    decreases dims.len(),
{
    if dims.len() == 0 {
        Seq::<char>::empty()
    } else if dims.len() == 1 {
        crate::text::dec_str(dims[0] as nat)
    } else {
        shape_str(dims.drop_last()) + seq![','] + crate::text::dec_str(dims.last() as nat)
    }
}

impl TensorShape {
    /// Writes the dimensions as decimal numerals joined by commas.
    pub fn render(&self) -> (r: String)
        ensures
            r@ == shape_str(self@),
    {
        let mut out = String::new();
        let mut i: usize = 0;
        proof {
            assert(self@.take(0) =~= Seq::<u64>::empty());
        }
        while i < self.0.len()
            invariant
                0 <= i <= self.0@.len(),
                out@ == shape_str(self@.take(i as int)),
                self@ == self.0@,
            decreases self.0@.len() - i,
        {
            if i > 0 {
                out.append(",");
                proof {
                    reveal_strlit(",");
                    assert(","@ =~= seq![',']);
                }
            }
            let piece = crate::text::u64_to_string(self.0[i]);
            out.append(piece.as_str());
            proof {
                assert(self@.take(i + 1).drop_last() =~= self@.take(i as int));
                assert(self@.take(i + 1).last() == self@[i as int]);
                if i == 0 {
                    assert(self@.take(1).len() == 1);
                    assert(self@.take(1)[0] == self@[0]);
                    assert(Seq::<char>::empty() + crate::text::dec_str(self@[0] as nat)
                        =~= crate::text::dec_str(self@[0] as nat));
                }
            }
            i = i + 1;
        }
        proof {
            assert(self@.take(self.0@.len() as int) =~= self@);
        }
        out
    }
}

/// Errors that can arise while parsing a media type.
#[derive(Debug)]
pub enum MediaTypeParseError {
    /// The input was empty after trimming.
    Empty,
    /// The base is outside the reserved namespace; carries the base.
    InvalidBase(String),
    /// A parameter that the base requires is missing; carries the key.
    MissingParam(&'static str),
    /// A shape component is not a non-negative integer; carries the component.
    InvalidShapeComponent(String),
}

/// The mathematical shape of a `MediaTypeParseError`.
pub enum MediaTypeErrorView {
    Empty,
    InvalidBase(Seq<char>),
    MissingParam(Seq<char>),
    InvalidShapeComponent(Seq<char>),
}

impl View for MediaTypeParseError {
    type V = MediaTypeErrorView;

    open spec fn view(&self) -> MediaTypeErrorView {
        match self {
            MediaTypeParseError::Empty => MediaTypeErrorView::Empty,
            MediaTypeParseError::InvalidBase(s) => MediaTypeErrorView::InvalidBase(s@),
            MediaTypeParseError::MissingParam(s) => MediaTypeErrorView::MissingParam(s@),
            MediaTypeParseError::InvalidShapeComponent(s) => MediaTypeErrorView::InvalidShapeComponent(
                s@,
            ),
        }
    }
}

/// Enum representing known layer media types.
#[derive(Debug, Clone, PartialEq, Eq, Default)]
pub enum OllamaMediaType {
    /// Configuration layer; the `type` parameter names the format.
    Config { config_type: String },
    /// Prompt template layer with an optional `name` parameter.
    Template { name: Option<String> },
    /// Tensor layer; `shape_raw` keeps the shape parameter verbatim while
    /// `shape` holds its parsed form, when every dimension parses.
    Tensor { name: String, dtype: String, shape_raw: String, shape: Option<TensorShape> },
    Tokenizer,
    TokenizerConfig,
    License,
    /// Deprecated umbrella model layer.
    #[default]
    Model,
    Adapter,
    Projector,
    System,
    Params,
    Messages,
    Prompt,
    /// Deprecated embedding layer.
    EmbedLegacy,
    /// Any future or unknown media type; preserves the original input.
    Unknown(String),
}

/// The mathematical shape of an `OllamaMediaType`.
pub enum MediaTypeView {
    Config { config_type: Seq<char> },
    Template { name: Option<Seq<char>> },
    Tensor { name: Seq<char>, dtype: Seq<char>, shape_raw: Seq<char>, shape: Option<Seq<u64>> },
    Tokenizer,
    TokenizerConfig,
    License,
    Model,
    Adapter,
    Projector,
    System,
    Params,
    Messages,
    Prompt,
    EmbedLegacy,
    Unknown(Seq<char>),
}

impl View for OllamaMediaType {
    type V = MediaTypeView;

    open spec fn view(&self) -> MediaTypeView {
        match self {
            OllamaMediaType::Config { config_type } => MediaTypeView::Config {
                config_type: config_type@,
            },
            OllamaMediaType::Template { name } => MediaTypeView::Template {
                name: match name {
                    Some(n) => Some(n@),
                    None => None,
                },
            },
            OllamaMediaType::Tensor { name, dtype, shape_raw, shape } => MediaTypeView::Tensor {
                name: name@,
                dtype: dtype@,
                shape_raw: shape_raw@,
                shape: match shape {
                    Some(ts) => Some(ts@),
                    None => None,
                },
            },
            OllamaMediaType::Tokenizer => MediaTypeView::Tokenizer,
            OllamaMediaType::TokenizerConfig => MediaTypeView::TokenizerConfig,
            OllamaMediaType::License => MediaTypeView::License,
            OllamaMediaType::Model => MediaTypeView::Model,
            OllamaMediaType::Adapter => MediaTypeView::Adapter,
            OllamaMediaType::Projector => MediaTypeView::Projector,
            OllamaMediaType::System => MediaTypeView::System,
            OllamaMediaType::Params => MediaTypeView::Params,
            OllamaMediaType::Messages => MediaTypeView::Messages,
            OllamaMediaType::Prompt => MediaTypeView::Prompt,
            OllamaMediaType::EmbedLegacy => MediaTypeView::EmbedLegacy,
            OllamaMediaType::Unknown(s) => MediaTypeView::Unknown(s@),
        }
    }
}

/// The prefix of the reserved media-type namespace.
pub open spec fn reserved_prefix() -> Seq<char> {
    "application/vnd.ollama.image."@
}

/// The canonical base string of each known variant; `Unknown` keeps its own.
pub open spec fn base_view(v: MediaTypeView) -> Seq<char> {
    match v {
        MediaTypeView::Config { .. } => "application/vnd.ollama.image.config"@,
        MediaTypeView::Template { .. } => "application/vnd.ollama.image.template"@,
        MediaTypeView::Tensor { .. } => "application/vnd.ollama.image.tensor"@,
        MediaTypeView::Tokenizer => "application/vnd.ollama.image.tokenizer"@,
        MediaTypeView::TokenizerConfig => "application/vnd.ollama.image.tokenizer.config"@,
        MediaTypeView::License => "application/vnd.ollama.image.license"@,
        MediaTypeView::Model => "application/vnd.ollama.image.model"@,
        MediaTypeView::Adapter => "application/vnd.ollama.image.adapter"@,
        MediaTypeView::Projector => "application/vnd.ollama.image.projector"@,
        MediaTypeView::System => "application/vnd.ollama.image.system"@,
        MediaTypeView::Params => "application/vnd.ollama.image.params"@,
        MediaTypeView::Messages => "application/vnd.ollama.image.messages"@,
        MediaTypeView::Prompt => "application/vnd.ollama.image.prompt"@,
        MediaTypeView::EmbedLegacy => "application/vnd.ollama.image.embed"@,
        MediaTypeView::Unknown(s) => s,
    }
}

/// `b` is one of the known base strings.
pub open spec fn is_known_base(b: Seq<char>) -> bool {
    ||| b == "application/vnd.ollama.image.config"@
    ||| b == "application/vnd.ollama.image.template"@
    ||| b == "application/vnd.ollama.image.tensor"@
    ||| b == "application/vnd.ollama.image.tokenizer"@
    ||| b == "application/vnd.ollama.image.tokenizer.config"@
    ||| b == "application/vnd.ollama.image.license"@
    ||| b == "application/vnd.ollama.image.model"@
    ||| b == "application/vnd.ollama.image.adapter"@
    ||| b == "application/vnd.ollama.image.projector"@
    ||| b == "application/vnd.ollama.image.system"@
    ||| b == "application/vnd.ollama.image.params"@
    ||| b == "application/vnd.ollama.image.messages"@
    ||| b == "application/vnd.ollama.image.prompt"@
    ||| b == "application/vnd.ollama.image.embed"@
}

/// The `key=value` parameter read from one `;`-separated piece: the piece is
/// trimmed, split at its first `=` (an absent `=` gives an empty value), and
/// key and value are trimmed; a piece that is empty or has an empty key
/// carries no parameter.
pub open spec fn param_of(piece: Seq<char>) -> Option<(Seq<char>, Seq<char>)> {
    let p = trim_spec(piece);
    if p.len() == 0 {
        None
    } else {
        let i = find_idx(p, '=');
        let k = trim_spec(p.take(i));
        let v = if i < p.len() {
            trim_spec(p.skip(i + 1))
        } else {
            Seq::<char>::empty()
        };
        if k.len() == 0 {
            None
        } else {
            Some((k, v))
        }
    }
}

/// The parameters carried by the pieces after the base, in order.
pub open spec fn params_of(pieces: Seq<Seq<char>>) -> Seq<(Seq<char>, Seq<char>)>
    decreases pieces.len(),
{
    if pieces.len() == 0 {
        Seq::<(Seq<char>, Seq<char>)>::empty()
    } else {
        match param_of(pieces[0]) {
            Some(p) => seq![p] + params_of(pieces.drop_first()),
            None => params_of(pieces.drop_first()),
        }
    }
}

/// The value of the first parameter whose key equals `key` up to ASCII case.
pub open spec fn lookup_param(
    params: Seq<(Seq<char>, Seq<char>)>,
    key: Seq<char>,
) -> Option<Seq<char>>
    decreases params.len(),
{
    if params.len() == 0 {
        None
    } else if lower_seq(params[0].0) == lower_seq(key) {
        Some(params[0].1)
    } else {
        lookup_param(params.drop_first(), key)
    }
}

/// The dimensions read from the comma-separated shape pieces: each piece is
/// trimmed, empty pieces are skipped, and the first piece that is not a
/// decimal `u64` is the error.
pub open spec fn parse_dims(parts: Seq<Seq<char>>) -> Result<Seq<u64>, Seq<char>>
    decreases parts.len(),
{
    if parts.len() == 0 {
        Ok(Seq::<u64>::empty())
    } else {
        let p = trim_spec(parts[0]);
        if p.len() == 0 {
            parse_dims(parts.drop_first())
        } else if valid_u64_str(p) {
            match parse_dims(parts.drop_first()) {
                Ok(d) => Ok(seq![u64_str_val(p) as u64] + d),
                Err(e) => Err(e),
            }
        } else {
            Err(p)
        }
    }
}

/// The shape sub-grammar: an all-white-space value means no parsed shape;
/// otherwise the value is split on `,` and read as dimensions.
pub open spec fn parse_shape_spec(raw: Seq<char>) -> Result<Option<Seq<u64>>, Seq<char>> {
    let t = trim_spec(raw);
    if t.len() == 0 {
        Ok(None)
    } else {
        match parse_dims(split_on(t, ',')) {
            Ok(d) => Ok(Some(d)),
            Err(e) => Err(e),
        }
    }
}

/// Dispatch on the trimmed base string: `t` is the whole trimmed input, kept
/// verbatim by `Unknown`.
pub open spec fn dispatch_spec(
    t: Seq<char>,
    base: Seq<char>,
    params: Seq<(Seq<char>, Seq<char>)>,
) -> Result<MediaTypeView, MediaTypeErrorView> {
    if base == "application/vnd.ollama.image.config"@ {
        match lookup_param(params, "type"@) {
            Some(v) => Ok(MediaTypeView::Config { config_type: v }),
            None => Err(MediaTypeErrorView::MissingParam("type"@)),
        }
    } else if base == "application/vnd.ollama.image.template"@ {
        Ok(MediaTypeView::Template { name: lookup_param(params, "name"@) })
    } else if base == "application/vnd.ollama.image.tensor"@ {
        match lookup_param(params, "name"@) {
            None => Err(MediaTypeErrorView::MissingParam("name"@)),
            Some(name) => match lookup_param(params, "dtype"@) {
                None => Err(MediaTypeErrorView::MissingParam("dtype"@)),
                Some(dtype) => match lookup_param(params, "shape"@) {
                    None => Err(MediaTypeErrorView::MissingParam("shape"@)),
                    Some(shape_raw) => match parse_shape_spec(shape_raw) {
                        Ok(shape) => Ok(
                            MediaTypeView::Tensor { name, dtype, shape_raw, shape },
                        ),
                        Err(c) => Err(MediaTypeErrorView::InvalidShapeComponent(c)),
                    },
                },
            },
        }
    } else if base == "application/vnd.ollama.image.tokenizer"@ {
        Ok(MediaTypeView::Tokenizer)
    } else if base == "application/vnd.ollama.image.tokenizer.config"@ {
        Ok(MediaTypeView::TokenizerConfig)
    } else if base == "application/vnd.ollama.image.license"@ {
        Ok(MediaTypeView::License)
    } else if base == "application/vnd.ollama.image.model"@ {
        Ok(MediaTypeView::Model)
    } else if base == "application/vnd.ollama.image.adapter"@ {
        Ok(MediaTypeView::Adapter)
    } else if base == "application/vnd.ollama.image.projector"@ {
        Ok(MediaTypeView::Projector)
    } else if base == "application/vnd.ollama.image.system"@ {
        Ok(MediaTypeView::System)
    } else if base == "application/vnd.ollama.image.params"@ {
        Ok(MediaTypeView::Params)
    } else if base == "application/vnd.ollama.image.messages"@ {
        Ok(MediaTypeView::Messages)
    } else if base == "application/vnd.ollama.image.prompt"@ {
        Ok(MediaTypeView::Prompt)
    } else if base == "application/vnd.ollama.image.embed"@ {
        Ok(MediaTypeView::EmbedLegacy)
    } else if is_prefix(reserved_prefix(), base) {
        Ok(MediaTypeView::Unknown(t))
    } else {
        Err(MediaTypeErrorView::InvalidBase(base))
    }
}

/// What parsing a media-type string yields: the input is trimmed, an empty
/// result is an error, and otherwise the input splits on `;` into a base and
/// parameter pieces that `dispatch_spec` interprets.
pub open spec fn parse_spec(s: Seq<char>) -> Result<MediaTypeView, MediaTypeErrorView> {
    let t = trim_spec(s);
    if t.len() == 0 {
        Err(MediaTypeErrorView::Empty)
    } else {
        let pieces = split_on(t, ';');
        dispatch_spec(t, trim_spec(pieces[0]), params_of(pieces.drop_first()))
    }
}

/// Reads one `;`-separated piece as a `key=value` parameter, if it carries
/// one.
fn param_of_str<'a>(piece: &'a str) -> (r: Option<(&'a str, &'a str)>)
    ensures
        match r {
            Some(kv) => param_of(piece@) == Some((kv.0@, kv.1@)),
            None => param_of(piece@) is None,
        },
{
    let p = trim_str(piece);
    let plen = p.unicode_len();
    if plen == 0 {
        return None;
    }
    let mut i: usize = 0;
    while i < plen && p.get_char(i) != '='
        invariant
            plen == p@.len(),
            0 <= i <= plen,
            sep_free(p@.take(i as int), '='),
        decreases plen - i,
    {
        proof {
            assert(p@.take(i + 1).drop_last() =~= p@.take(i as int));
            assert forall|k: int| 0 <= k < i + 1 implies #[trigger] p@.take(i + 1)[k] != '=' by {
                if k < i {
                    assert(p@.take(i as int)[k] != '=');
                }
            }
        }
        i = i + 1;
    }
    proof {
        if i < plen {
            lemma_find_idx_at(p@, '=', i as int);
        } else {
            lemma_find_idx(p@, '=');
            if find_idx(p@, '=') < plen {
                assert(p@.take(plen as int) =~= p@);
            }
            assert(find_idx(p@, '=') == plen);
        }
    }
    let k = trim_str(p.substring_char(0, i));
    proof {
        assert(p@.subrange(0, i as int) =~= p@.take(i as int));
    }
    if k.unicode_len() == 0 {
        return None;
    }
    if i < plen {
        let v = trim_str(p.substring_char(i + 1, plen));
        proof {
            assert(p@.subrange(i + 1, plen as int) =~= p@.skip(i + 1));
        }
        Some((k, v))
    } else {
        let v = "";
        proof {
            reveal_strlit("");
            assert(v@ =~= Seq::<char>::empty());
        }
        Some((k, v))
    }
}

/// Finds the value of the first parameter among `pieces[1..]` whose key
/// equals `key` up to ASCII case.
fn find_param<'a>(pieces: &Vec<&'a str>, key: &str) -> (r: Option<String>)
    requires
        pieces@.len() >= 1,
    ensures
        match r {
            Some(v) => lookup_param(params_of(pieces.deep_view().drop_first()), key@) == Some(v@),
            None => lookup_param(params_of(pieces.deep_view().drop_first()), key@) is None,
        },
{
    let ghost all = pieces.deep_view();
    let mut i: usize = 1;
    proof {
        assert(all.skip(1) =~= all.drop_first());
    }
    while i < pieces.len()
        invariant
            all == pieces.deep_view(),
            all.len() == pieces@.len(),
            1 <= i <= pieces@.len(),
            lookup_param(params_of(all.drop_first()), key@) == lookup_param(
                params_of(all.skip(i as int)),
                key@,
            ),
        decreases pieces@.len() - i,
    {
        let piece = pieces[i];
        proof {
            assert(all.skip(i as int).len() > 0);
            assert(all.skip(i as int)[0] == all[i as int]);
            assert(all[i as int] == piece@);
            assert(all.skip(i as int).drop_first() =~= all.skip(i + 1));
        }
        match param_of_str(piece) {
            Some(kv) => {
                let (k, v) = kv;
                if eq_ignore_case(k, key) {
                    proof {
                        assert(params_of(all.skip(i as int)) == seq![(k@, v@)] + params_of(
                            all.skip(i + 1),
                        ));
                        assert(params_of(all.skip(i as int))[0] == (k@, v@));
                    }
                    return Some(v.to_owned());
                }
                proof {
                    let ps = params_of(all.skip(i as int));
                    assert(ps == seq![(k@, v@)] + params_of(all.skip(i + 1)));
                    assert(ps[0] == (k@, v@));
                    assert(ps.drop_first() =~= params_of(all.skip(i + 1)));
                }
            },
            None => {
                proof {
                    assert(params_of(all.skip(i as int)) == params_of(all.skip(i + 1)));
                }
            },
        }
        i = i + 1;
    }
    proof {
        assert(all.skip(i as int).len() == 0);
        assert(all.skip(i as int) =~= Seq::<Seq<char>>::empty());
    }
    None
}

/// Parses a tensor shape parameter value: comma-separated non-negative
/// integers with white space tolerated around each, empty components skipped;
/// an all-white-space value yields no parsed shape.
pub fn parse_shape(raw: &str) -> (r: Result<Option<TensorShape>, MediaTypeParseError>)
    ensures
        match r {
            Ok(o) => parse_shape_spec(raw@) == Ok::<Option<Seq<u64>>, Seq<char>>(
                match o {
                    Some(ts) => Some(ts@),
                    None => None,
                },
            ),
            Err(e) => match e@ {
                MediaTypeErrorView::InvalidShapeComponent(c) => parse_shape_spec(raw@)
                    == Err::<Option<Seq<u64>>, Seq<char>>(c),
                _ => false,
            },
        },
{
    let t = trim_str(raw);
    if t.unicode_len() == 0 {
        return Ok(None);
    }
    let parts = split_str(t, ',');
    let ghost all = parts.deep_view();
    let mut dims: Vec<u64> = Vec::new();
    let mut i: usize = 0;
    proof {
        assert(all.skip(0) =~= all);
        assert(dims@ =~= Seq::<u64>::empty());
    }
    while i < parts.len()
        invariant
            all == parts.deep_view(),
            all == split_on(trim_spec(raw@), ','),
            trim_spec(raw@).len() > 0,
            all.len() == parts@.len(),
            0 <= i <= parts@.len(),
            parse_dims(all) == (match parse_dims(all.skip(i as int)) {
                Ok(d) => Ok::<Seq<u64>, Seq<char>>(dims@ + d),
                Err(e) => Err::<Seq<u64>, Seq<char>>(e),
            }),
        decreases parts@.len() - i,
    {
        let part = parts[i];
        proof {
            assert(all.skip(i as int).len() > 0);
            assert(all.skip(i as int)[0] == all[i as int]);
            assert(all[i as int] == part@);
            assert(all.skip(i as int).drop_first() =~= all.skip(i + 1));
        }
        let p = trim_str(part);
        if p.unicode_len() == 0 {
            i = i + 1;
            continue;
        }
        match parse_u64_str(p) {
            Some(v) => {
                proof {
                    assert(parse_dims(all.skip(i as int)) == (match parse_dims(all.skip(i + 1)) {
                        Ok(d) => Ok::<Seq<u64>, Seq<char>>(seq![v] + d),
                        Err(e) => Err::<Seq<u64>, Seq<char>>(e),
                    }));
                    assert(dims@ + (seq![v] + parse_dims_ok_rest(all, i as int)) =~= dims@.push(v)
                        + parse_dims_ok_rest(all, i as int));
                }
                dims.push(v);
                i = i + 1;
            },
            None => {
                return Err(MediaTypeParseError::InvalidShapeComponent(p.to_owned()));
            },
        }
    }
    proof {
        assert(all.skip(i as int).len() == 0);
        assert(all.skip(i as int) =~= Seq::<Seq<char>>::empty());
        assert(dims@ + Seq::<u64>::empty() =~= dims@);
    }
    Ok(Some(TensorShape(dims)))
}

/// The dimensions that the pieces from `i` on contribute, when they parse.
spec fn parse_dims_ok_rest(all: Seq<Seq<char>>, i: int) -> Seq<u64> {
    match parse_dims(all.skip(i + 1)) {
        Ok(d) => d,
        Err(_) => Seq::<u64>::empty(),
    }
}

impl OllamaMediaType {
    /// True if this variant is considered deprecated.
    pub fn is_deprecated(&self) -> (r: bool)
        ensures
            r == (self@ is Model || self@ is EmbedLegacy),
    {
        matches!(self, OllamaMediaType::Model | OllamaMediaType::EmbedLegacy)
    }

    /// The canonical base (without parameters) for known types; `Unknown`
    /// returns the stored original string.
    pub fn base(&self) -> (r: &str)
        ensures
            r@ == base_view(self@),
    {
        match self {
            OllamaMediaType::Config { .. } => "application/vnd.ollama.image.config",
            OllamaMediaType::Template { .. } => "application/vnd.ollama.image.template",
            OllamaMediaType::Tensor { .. } => "application/vnd.ollama.image.tensor",
            OllamaMediaType::Tokenizer => "application/vnd.ollama.image.tokenizer",
            OllamaMediaType::TokenizerConfig => "application/vnd.ollama.image.tokenizer.config",
            OllamaMediaType::License => "application/vnd.ollama.image.license",
            OllamaMediaType::Model => "application/vnd.ollama.image.model",
            OllamaMediaType::Adapter => "application/vnd.ollama.image.adapter",
            OllamaMediaType::Projector => "application/vnd.ollama.image.projector",
            OllamaMediaType::System => "application/vnd.ollama.image.system",
            OllamaMediaType::Params => "application/vnd.ollama.image.params",
            OllamaMediaType::Messages => "application/vnd.ollama.image.messages",
            OllamaMediaType::Prompt => "application/vnd.ollama.image.prompt",
            OllamaMediaType::EmbedLegacy => "application/vnd.ollama.image.embed",
            OllamaMediaType::Unknown(s) => s.as_str(),
        }
    }

    /// Parses the textual form of a layer media type.
    pub fn parse(input: &str) -> (r: Result<OllamaMediaType, MediaTypeParseError>)
        ensures
            match r {
                Ok(m) => parse_spec(input@) == Ok::<MediaTypeView, MediaTypeErrorView>(m@),
                Err(e) => parse_spec(input@) == Err::<MediaTypeView, MediaTypeErrorView>(e@),
            },
    {
        let t = trim_str(input);
        if t.unicode_len() == 0 {
            return Err(MediaTypeParseError::Empty);
        }
        let pieces = split_str(t, ';');
        proof {
            lemma_split_len(t@, ';');
            assert(pieces.deep_view()[0] == pieces@[0]@);
        }
        let base = trim_str(pieces[0]);
        let ghost params = params_of(pieces.deep_view().drop_first());
        if str_eq(base, "application/vnd.ollama.image.config") {
            match find_param(&pieces, "type") {
                Some(v) => Ok(OllamaMediaType::Config { config_type: v }),
                None => Err(MediaTypeParseError::MissingParam("type")),
            }
        } else if str_eq(base, "application/vnd.ollama.image.template") {
            let name = find_param(&pieces, "name");
            Ok(OllamaMediaType::Template { name })
        } else if str_eq(base, "application/vnd.ollama.image.tensor") {
            let name = match find_param(&pieces, "name") {
                Some(v) => v,
                None => {
                    return Err(MediaTypeParseError::MissingParam("name"));
                },
            };
            let dtype = match find_param(&pieces, "dtype") {
                Some(v) => v,
                None => {
                    return Err(MediaTypeParseError::MissingParam("dtype"));
                },
            };
            let shape_raw = match find_param(&pieces, "shape") {
                Some(v) => v,
                None => {
                    return Err(MediaTypeParseError::MissingParam("shape"));
                },
            };
            match parse_shape(shape_raw.as_str()) {
                Ok(shape) => Ok(
                    OllamaMediaType::Tensor { name, dtype, shape_raw, shape },
                ),
                Err(e) => Err(e),
            }
        } else if str_eq(base, "application/vnd.ollama.image.tokenizer") {
            Ok(OllamaMediaType::Tokenizer)
        } else if str_eq(base, "application/vnd.ollama.image.tokenizer.config") {
            Ok(OllamaMediaType::TokenizerConfig)
        } else if str_eq(base, "application/vnd.ollama.image.license") {
            Ok(OllamaMediaType::License)
        } else if str_eq(base, "application/vnd.ollama.image.model") {
            Ok(OllamaMediaType::Model)
        } else if str_eq(base, "application/vnd.ollama.image.adapter") {
            Ok(OllamaMediaType::Adapter)
        } else if str_eq(base, "application/vnd.ollama.image.projector") {
            Ok(OllamaMediaType::Projector)
        } else if str_eq(base, "application/vnd.ollama.image.system") {
            Ok(OllamaMediaType::System)
        } else if str_eq(base, "application/vnd.ollama.image.params") {
            Ok(OllamaMediaType::Params)
        } else if str_eq(base, "application/vnd.ollama.image.messages") {
            Ok(OllamaMediaType::Messages)
        } else if str_eq(base, "application/vnd.ollama.image.prompt") {
            Ok(OllamaMediaType::Prompt)
        } else if str_eq(base, "application/vnd.ollama.image.embed") {
            Ok(OllamaMediaType::EmbedLegacy)
        } else if str_starts_with(base, "application/vnd.ollama.image.") {
            Ok(OllamaMediaType::Unknown(t.to_owned()))
        } else {
            Err(MediaTypeParseError::InvalidBase(base.to_owned()))
        }
    }

    /// Serializes the media type to its textual form: the base string, then
    /// the variant's parameters in a fixed order; `Unknown` is reproduced
    /// verbatim.
    pub fn render(&self) -> (r: String)
        ensures
            r@ == render_spec(self@),
    {
        match self {
            OllamaMediaType::Config { config_type } => {
                let mut out = self.base().to_owned();
                out.append("; type=");
                out.append(config_type.as_str());
                out
            },
            OllamaMediaType::Template { name: Some(n) } => {
                let mut out = self.base().to_owned();
                out.append("; name=");
                out.append(n.as_str());
                out
            },
            OllamaMediaType::Tensor { name, dtype, shape_raw, shape: _ } => {
                let mut out = self.base().to_owned();
                out.append("; name=");
                out.append(name.as_str());
                out.append("; dtype=");
                out.append(dtype.as_str());
                out.append("; shape=");
                out.append(shape_raw.as_str());
                out
            },
            OllamaMediaType::Unknown(s) => s.clone(),
            _ => self.base().to_owned(),
        }
    }
}

/// The textual form of `v`: the base, then the variant's parameters in a
/// fixed order, joined by `"; "`.
pub open spec fn render_spec(v: MediaTypeView) -> Seq<char> {
    match v {
        MediaTypeView::Config { config_type } => base_view(v) + "; type="@ + config_type,
        MediaTypeView::Template { name: Some(n) } => base_view(v) + "; name="@ + n,
        MediaTypeView::Tensor { name, dtype, shape_raw, .. } => base_view(v) + "; name="@ + name
            + "; dtype="@ + dtype + "; shape="@ + shape_raw,
        MediaTypeView::Unknown(s) => s,
        _ => base_view(v),
    }
}

/// `s` has no white space at either end.
pub open spec fn no_outer_space(s: Seq<char>) -> bool {
    s.len() == 0 || (!is_space(s[0]) && !is_space(s[s.len() - 1]))
}

/// A parameter value that serialization embeds and parsing reads back
/// unchanged: free of `;` and with no white space at its ends.
pub open spec fn embeddable(s: Seq<char>) -> bool {
    sep_free(s, ';') && no_outer_space(s)
}

/// The shape of a trimmed string that parses to `Unknown`: nonempty, no
/// white space at its ends, and a base inside the reserved namespace that is
/// not a known base.
pub open spec fn unknown_form(s: Seq<char>) -> bool {
    &&& s.len() > 0
    &&& no_outer_space(s)
    &&& is_prefix(reserved_prefix(), trim_spec(split_on(s, ';')[0]))
    &&& !is_known_base(trim_spec(split_on(s, ';')[0]))
}

/// The values whose serialized form parses back to themselves: parameter
/// values must be embeddable, a tensor's raw shape must agree with its
/// parsed shape, and an `Unknown` must hold the trimmed form that parsing
/// itself produces.
pub open spec fn round_trippable(v: MediaTypeView) -> bool {
    match v {
        MediaTypeView::Config { config_type } => embeddable(config_type),
        MediaTypeView::Template { name: Some(n) } => embeddable(n),
        MediaTypeView::Tensor { name, dtype, shape_raw, shape } => embeddable(name) && embeddable(
            dtype,
        ) && embeddable(shape_raw) && parse_shape_spec(shape_raw) == Ok::<
            Option<Seq<u64>>,
            Seq<char>,
        >(shape),
        MediaTypeView::Unknown(s) => unknown_form(s),
        _ => true,
    }
}

/// One serialized parameter piece as it stands after the `;`: a space, the
/// key, `=`, and the value.
pub open spec fn param_piece(key: Seq<char>, val: Seq<char>) -> Seq<char> {
    seq![' '] + key + seq!['='] + val
}

proof fn lemma_param_piece_sep_free(key: Seq<char>, val: Seq<char>)
    requires
        sep_free(key, ';'),
        sep_free(val, ';'),
    ensures
        sep_free(param_piece(key, val), ';'),
{
    let p = param_piece(key, val);
    assert forall|k: int| 0 <= k < p.len() implies p[k] != ';' by {
        if k == 0 {
            assert(p[0] == ' ');
        } else if k <= key.len() {
            assert(p[k] == key[k - 1]);
        } else if k == key.len() + 1 {
            assert(p[k] == '=');
        } else {
            assert(p[k] == val[k - key.len() - 2]);
        }
    }
}

proof fn lemma_param_piece_reads(key: Seq<char>, val: Seq<char>)
    requires
        key.len() > 0,
        !is_space(key[0]),
        !is_space(key[key.len() - 1]),
        sep_free(key, '='),
        no_outer_space(val),
    ensures
        param_of(param_piece(key, val)) == Some((key, val)),
{
    let inner = key + seq!['='] + val;
    let piece = param_piece(key, val);
    assert(piece =~= seq![' '] + inner);
    assert(inner[0] == key[0]);
    if val.len() > 0 {
        assert(inner[inner.len() - 1] == val[val.len() - 1]);
    } else {
        assert(inner[inner.len() - 1] == '=');
    }
    lemma_trim_space_prefix(inner);
    let p = trim_spec(piece);
    assert(p == inner);
    assert(p.take(key.len() as int) =~= key);
    assert(p[key.len() as int] == '=');
    lemma_find_idx_at(p, '=', key.len() as int);
    lemma_trim_of_trimmed(key);
    assert(p.skip(key.len() as int + 1) =~= val);
    lemma_trim_of_trimmed(val);
}

proof fn lemma_parse_bare(b: Seq<char>)
    requires
        b.len() > 0,
        !is_space(b[0]),
        !is_space(b[b.len() - 1]),
        sep_free(b, ';'),
    ensures
        trim_spec(b) == b,
        split_on(b, ';') == seq![b],
        trim_spec(split_on(b, ';')[0]) == b,
        params_of(split_on(b, ';').drop_first()) == Seq::<(Seq<char>, Seq<char>)>::empty(),
{
    lemma_trim_of_trimmed(b);
    lemma_split_sep_free(b, ';');
    assert(split_on(b, ';')[0] == b);
    assert(seq![b].drop_first() =~= Seq::<Seq<char>>::empty());
}

proof fn lemma_parse_one_param(b: Seq<char>, key: Seq<char>, val: Seq<char>)
    requires
        b.len() > 0,
        !is_space(b[0]),
        !is_space(b[b.len() - 1]),
        sep_free(b, ';'),
        key.len() > 0,
        !is_space(key[0]),
        !is_space(key[key.len() - 1]),
        sep_free(key, '='),
        sep_free(key, ';'),
        embeddable(val),
    ensures
        ({
            let w = b + seq![';'] + param_piece(key, val);
            &&& trim_spec(w) == w
            &&& w.len() > 0
            &&& split_on(w, ';') == seq![b, param_piece(key, val)]
            &&& trim_spec(split_on(w, ';')[0]) == b
            &&& params_of(split_on(w, ';').drop_first()) == seq![(key, val)]
        }),
{
    let piece = param_piece(key, val);
    let w = b + seq![';'] + piece;
    assert(w[0] == b[0]);
    if val.len() > 0 {
        assert(w[w.len() - 1] == val[val.len() - 1]);
    } else {
        assert(w[w.len() - 1] == '=');
    }
    lemma_trim_of_trimmed(w);
    lemma_param_piece_sep_free(key, val);
    lemma_split_at_sep(b, piece, ';');
    lemma_split_sep_free(piece, ';');
    assert(seq![b] + seq![piece] =~= seq![b, piece]);
    lemma_trim_of_trimmed(b);
    assert(seq![b, piece].drop_first() =~= seq![piece]);
    lemma_param_piece_reads(key, val);
    assert(seq![piece].drop_first() =~= Seq::<Seq<char>>::empty());
    assert(seq![piece][0] == piece);
    assert(params_of(seq![piece]) == seq![(key, val)] + params_of(seq![piece].drop_first()));
    assert(params_of(Seq::<Seq<char>>::empty()) == Seq::<(Seq<char>, Seq<char>)>::empty());
    assert(seq![(key, val)] + Seq::<(Seq<char>, Seq<char>)>::empty() =~= seq![(key, val)]);
}

proof fn lemma_known_base_facts(v: MediaTypeView)
    requires
        !(v is Unknown),
    ensures
        base_view(v).len() > 0,
        !is_space(base_view(v)[0]),
        !is_space(base_view(v)[base_view(v).len() - 1]),
        sep_free(base_view(v), ';'),
{
    reveal_strlit("application/vnd.ollama.image.config");
    reveal_strlit("application/vnd.ollama.image.template");
    reveal_strlit("application/vnd.ollama.image.tensor");
    reveal_strlit("application/vnd.ollama.image.tokenizer");
    reveal_strlit("application/vnd.ollama.image.tokenizer.config");
    reveal_strlit("application/vnd.ollama.image.license");
    reveal_strlit("application/vnd.ollama.image.model");
    reveal_strlit("application/vnd.ollama.image.adapter");
    reveal_strlit("application/vnd.ollama.image.projector");
    reveal_strlit("application/vnd.ollama.image.system");
    reveal_strlit("application/vnd.ollama.image.params");
    reveal_strlit("application/vnd.ollama.image.messages");
    reveal_strlit("application/vnd.ollama.image.prompt");
    reveal_strlit("application/vnd.ollama.image.embed");
    let b = base_view(v);
    match v {
        MediaTypeView::Config { .. } => {
            assert(b.len() > 0 && !is_space(b[0]) && !is_space(b[b.len() - 1]) && sep_free(b, ';'));
        },
        MediaTypeView::Template { .. } => {
            assert(b.len() > 0 && !is_space(b[0]) && !is_space(b[b.len() - 1]) && sep_free(b, ';'));
        },
        MediaTypeView::Tensor { .. } => {
            assert(b.len() > 0 && !is_space(b[0]) && !is_space(b[b.len() - 1]) && sep_free(b, ';'));
        },
        MediaTypeView::Tokenizer => {
            assert(b.len() > 0 && !is_space(b[0]) && !is_space(b[b.len() - 1]) && sep_free(b, ';'));
        },
        MediaTypeView::TokenizerConfig => {
            assert(b.len() > 0 && !is_space(b[0]) && !is_space(b[b.len() - 1]) && sep_free(b, ';'));
        },
        MediaTypeView::License => {
            assert(b.len() > 0 && !is_space(b[0]) && !is_space(b[b.len() - 1]) && sep_free(b, ';'));
        },
        MediaTypeView::Model => {
            assert(b.len() > 0 && !is_space(b[0]) && !is_space(b[b.len() - 1]) && sep_free(b, ';'));
        },
        MediaTypeView::Adapter => {
            assert(b.len() > 0 && !is_space(b[0]) && !is_space(b[b.len() - 1]) && sep_free(b, ';'));
        },
        MediaTypeView::Projector => {
            assert(b.len() > 0 && !is_space(b[0]) && !is_space(b[b.len() - 1]) && sep_free(b, ';'));
        },
        MediaTypeView::System => {
            assert(b.len() > 0 && !is_space(b[0]) && !is_space(b[b.len() - 1]) && sep_free(b, ';'));
        },
        MediaTypeView::Params => {
            assert(b.len() > 0 && !is_space(b[0]) && !is_space(b[b.len() - 1]) && sep_free(b, ';'));
        },
        MediaTypeView::Messages => {
            assert(b.len() > 0 && !is_space(b[0]) && !is_space(b[b.len() - 1]) && sep_free(b, ';'));
        },
        MediaTypeView::Prompt => {
            assert(b.len() > 0 && !is_space(b[0]) && !is_space(b[b.len() - 1]) && sep_free(b, ';'));
        },
        MediaTypeView::EmbedLegacy => {
            assert(b.len() > 0 && !is_space(b[0]) && !is_space(b[b.len() - 1]) && sep_free(b, ';'));
        },
        MediaTypeView::Unknown(..) => {},
    }
}

proof fn lemma_base_discriminates(v: MediaTypeView)
    requires
        !(v is Unknown),
    ensures
        (base_view(v) == "application/vnd.ollama.image.config"@) <==> v is Config,
        (base_view(v) == "application/vnd.ollama.image.template"@) <==> v is Template,
        (base_view(v) == "application/vnd.ollama.image.tensor"@) <==> v is Tensor,
        (base_view(v) == "application/vnd.ollama.image.tokenizer"@) <==> v is Tokenizer,
        (base_view(v) == "application/vnd.ollama.image.tokenizer.config"@) <==> v is TokenizerConfig,
        (base_view(v) == "application/vnd.ollama.image.license"@) <==> v is License,
        (base_view(v) == "application/vnd.ollama.image.model"@) <==> v is Model,
        (base_view(v) == "application/vnd.ollama.image.adapter"@) <==> v is Adapter,
        (base_view(v) == "application/vnd.ollama.image.projector"@) <==> v is Projector,
        (base_view(v) == "application/vnd.ollama.image.system"@) <==> v is System,
        (base_view(v) == "application/vnd.ollama.image.params"@) <==> v is Params,
        (base_view(v) == "application/vnd.ollama.image.messages"@) <==> v is Messages,
        (base_view(v) == "application/vnd.ollama.image.prompt"@) <==> v is Prompt,
        (base_view(v) == "application/vnd.ollama.image.embed"@) <==> v is EmbedLegacy,
{
    reveal_strlit("application/vnd.ollama.image.config");
    reveal_strlit("application/vnd.ollama.image.template");
    reveal_strlit("application/vnd.ollama.image.tensor");
    reveal_strlit("application/vnd.ollama.image.tokenizer");
    reveal_strlit("application/vnd.ollama.image.tokenizer.config");
    reveal_strlit("application/vnd.ollama.image.license");
    reveal_strlit("application/vnd.ollama.image.model");
    reveal_strlit("application/vnd.ollama.image.adapter");
    reveal_strlit("application/vnd.ollama.image.projector");
    reveal_strlit("application/vnd.ollama.image.system");
    reveal_strlit("application/vnd.ollama.image.params");
    reveal_strlit("application/vnd.ollama.image.messages");
    reveal_strlit("application/vnd.ollama.image.prompt");
    reveal_strlit("application/vnd.ollama.image.embed");
    let cfg = "application/vnd.ollama.image.config"@;
    let tpl = "application/vnd.ollama.image.template"@;
    let tns = "application/vnd.ollama.image.tensor"@;
    let tok = "application/vnd.ollama.image.tokenizer"@;
    let lic = "application/vnd.ollama.image.license"@;
    let mdl = "application/vnd.ollama.image.model"@;
    let adp = "application/vnd.ollama.image.adapter"@;
    let prj = "application/vnd.ollama.image.projector"@;
    let sys = "application/vnd.ollama.image.system"@;
    let par = "application/vnd.ollama.image.params"@;
    let msg = "application/vnd.ollama.image.messages"@;
    let prm = "application/vnd.ollama.image.prompt"@;
    let emb = "application/vnd.ollama.image.embed"@;
    let tkc = "application/vnd.ollama.image.tokenizer.config"@;
    assert(cfg.len() == 35);
    assert(tpl.len() == 37);
    assert(tns.len() == 35);
    assert(tok.len() == 38);
    assert(tkc.len() == 45);
    assert(lic.len() == 36);
    assert(mdl.len() == 34);
    assert(adp.len() == 36);
    assert(prj.len() == 38);
    assert(sys.len() == 35);
    assert(par.len() == 35);
    assert(msg.len() == 37);
    assert(prm.len() == 35);
    assert(emb.len() == 34);
    assert(cfg[29] != tns[29]);
    assert(cfg[29] != sys[29]);
    assert(cfg[29] != par[29]);
    assert(cfg[29] != prm[29]);
    assert(tns[29] != sys[29]);
    assert(tns[29] != par[29]);
    assert(tns[29] != prm[29]);
    assert(sys[29] != par[29]);
    assert(sys[29] != prm[29]);
    assert(par[30] != prm[30]);
    assert(tpl[29] != msg[29]);
    assert(tok[29] != prj[29]);
    assert(lic[29] != adp[29]);
    assert(mdl[29] != emb[29]);
}

/// Serializing a media type and parsing the result returns the same value,
/// for every value that `round_trippable` admits: embeddable parameter
/// values, a tensor shape that agrees with its raw form, and an `Unknown`
/// holding what parsing produced.
pub proof fn lemma_media_type_round_trip(v: MediaTypeView)
    requires
        round_trippable(v),
    ensures
        parse_spec(render_spec(v)) == Ok::<MediaTypeView, MediaTypeErrorView>(v),
{
    match v {
        MediaTypeView::Config { config_type } => {
            lemma_known_base_facts(v);
            let b = base_view(v);
            reveal_strlit("; type=");
            reveal_strlit("type");
            let key = "type"@;
            assert(key.len() == 4);
            assert("; type="@ =~= seq![';'] + seq![' '] + key + seq!['=']);
            let w = render_spec(v);
            assert(w =~= b + seq![';'] + param_piece(key, config_type));
            lemma_parse_one_param(b, key, config_type);
            assert(lookup_param(seq![(key, config_type)], "type"@) == Some(config_type));
        },
        MediaTypeView::Template { name: Some(n) } => {
            lemma_known_base_facts(v);
            let b = base_view(v);
            reveal_strlit("; name=");
            reveal_strlit("name");
            let key = "name"@;
            assert(key.len() == 4);
            assert("; name="@ =~= seq![';'] + seq![' '] + key + seq!['=']);
            let w = render_spec(v);
            assert(w =~= b + seq![';'] + param_piece(key, n));
            lemma_parse_one_param(b, key, n);
            lemma_base_discriminates(v);
            assert(lookup_param(seq![(key, n)], "name"@) == Some(n));
        },
        MediaTypeView::Tensor { name, dtype, shape_raw, shape } => {
            lemma_round_trip_tensor(name, dtype, shape_raw, shape);
        },
        MediaTypeView::Unknown(s) => {
            lemma_trim_of_trimmed(s);
            lemma_parse_unrecognized(s);
        },
        _ => {
            lemma_known_base_facts(v);
            let b = base_view(v);
            lemma_parse_bare(b);
            lemma_base_discriminates(v);
        },
    }
}

proof fn lemma_round_trip_tensor(
    name: Seq<char>,
    dtype: Seq<char>,
    shape_raw: Seq<char>,
    shape: Option<Seq<u64>>,
)
    requires
        embeddable(name),
        embeddable(dtype),
        embeddable(shape_raw),
        parse_shape_spec(shape_raw) == Ok::<Option<Seq<u64>>, Seq<char>>(shape),
    ensures
        parse_spec(render_spec(MediaTypeView::Tensor { name, dtype, shape_raw, shape })) == Ok::<
            MediaTypeView,
            MediaTypeErrorView,
        >(MediaTypeView::Tensor { name, dtype, shape_raw, shape }),
{
    let v = MediaTypeView::Tensor { name, dtype, shape_raw, shape };
    lemma_known_base_facts(v);
    let b = base_view(v);
    reveal_strlit("; name=");
    reveal_strlit("name");
    reveal_strlit("; dtype=");
    reveal_strlit("dtype");
    reveal_strlit("; shape=");
    reveal_strlit("shape");
    let kn = "name"@;
    let kd = "dtype"@;
    let ks = "shape"@;
    let p1 = param_piece(kn, name);
    let p2 = param_piece(kd, dtype);
    let p3 = param_piece(ks, shape_raw);
    let w = render_spec(v);
    assert(w =~= b + seq![';'] + (p1 + seq![';'] + (p2 + seq![';'] + p3)));
    // The whole is trimmed: it starts with the base and ends with the shape
    // value or `=`.
    assert(w[0] == b[0]);
    if shape_raw.len() > 0 {
        assert(w[w.len() - 1] == shape_raw[shape_raw.len() - 1]);
    } else {
        assert(w[w.len() - 1] == '=');
    }
    lemma_trim_of_trimmed(w);
    // Split into the base and the three parameter pieces.
    lemma_param_piece_sep_free(kn, name);
    lemma_param_piece_sep_free(kd, dtype);
    lemma_param_piece_sep_free(ks, shape_raw);
    lemma_split_at_sep(b, p1 + seq![';'] + (p2 + seq![';'] + p3), ';');
    lemma_split_at_sep(p1, p2 + seq![';'] + p3, ';');
    lemma_split_at_sep(p2, p3, ';');
    lemma_split_sep_free(p3, ';');
    let pieces = split_on(w, ';');
    assert(pieces =~= seq![b, p1, p2, p3]);
    lemma_trim_of_trimmed(b);
    // The three pieces carry the three parameters.
    lemma_param_piece_reads(kn, name);
    lemma_param_piece_reads(kd, dtype);
    lemma_param_piece_reads(ks, shape_raw);
    assert(pieces.drop_first() =~= seq![p1, p2, p3]);
    assert(seq![p1, p2, p3].drop_first() =~= seq![p2, p3]);
    assert(seq![p2, p3].drop_first() =~= seq![p3]);
    assert(seq![p3].drop_first() =~= Seq::<Seq<char>>::empty());
    let e = Seq::<(Seq<char>, Seq<char>)>::empty();
    assert(seq![p3][0] == p3);
    assert(params_of(seq![p3]) == seq![(ks, shape_raw)] + params_of(seq![p3].drop_first()));
    assert(params_of(Seq::<Seq<char>>::empty()) == e);
    assert(params_of(seq![p3]) =~= seq![(ks, shape_raw)]);
    assert(seq![p2, p3][0] == p2);
    assert(params_of(seq![p2, p3]) == seq![(kd, dtype)] + params_of(seq![p2, p3].drop_first()));
    assert(params_of(seq![p2, p3]) =~= seq![(kd, dtype), (ks, shape_raw)]);
    assert(seq![p1, p2, p3][0] == p1);
    assert(params_of(seq![p1, p2, p3]) == seq![(kn, name)] + params_of(
        seq![p1, p2, p3].drop_first(),
    ));
    let params = params_of(seq![p1, p2, p3]);
    assert(params =~= seq![(kn, name), (kd, dtype), (ks, shape_raw)]);
    // The three keys are distinct even up to case: `name` is shorter, and
    // `dtype` and `shape` differ in their first letter.
    assert(lower_seq(kn).len() == 4 && lower_seq(kd).len() == 5 && lower_seq(ks).len() == 5);
    assert(lower_seq(kd)[0] == crate::text::lower(kd[0]));
    assert(lower_seq(ks)[0] == crate::text::lower(ks[0]));
    assert(lower_seq(kd)[0] != lower_seq(ks)[0]);
    assert(params[0] == (kn, name));
    assert(lookup_param(params, "name"@) == Some(name));
    assert(params.drop_first() =~= seq![(kd, dtype), (ks, shape_raw)]);
    assert(lookup_param(params, "dtype"@) == lookup_param(params.drop_first(), "dtype"@));
    assert(params.drop_first()[0] == (kd, dtype));
    assert(lookup_param(params, "dtype"@) == Some(dtype));
    assert(lookup_param(params, "shape"@) == lookup_param(params.drop_first(), "shape"@));
    assert(params.drop_first().drop_first() =~= seq![(ks, shape_raw)]);
    assert(lookup_param(params.drop_first(), "shape"@) == lookup_param(
        params.drop_first().drop_first(),
        "shape"@,
    ));
    assert(lookup_param(params, "shape"@) == Some(shape_raw));
    lemma_base_discriminates(v);
}

/// What parsing does with an unrecognized base: inside the reserved
/// namespace the whole trimmed input is kept as `Unknown`; outside it the
/// base is an `InvalidBase` error.
pub proof fn lemma_parse_unrecognized(s: Seq<char>)
    requires
        trim_spec(s).len() > 0,
        !is_known_base(trim_spec(split_on(trim_spec(s), ';')[0])),
    ensures
        is_prefix(reserved_prefix(), trim_spec(split_on(trim_spec(s), ';')[0])) ==> parse_spec(s)
            == Ok::<MediaTypeView, MediaTypeErrorView>(MediaTypeView::Unknown(trim_spec(s))),
        !is_prefix(reserved_prefix(), trim_spec(split_on(trim_spec(s), ';')[0])) ==> parse_spec(s)
            == Err::<MediaTypeView, MediaTypeErrorView>(
            MediaTypeErrorView::InvalidBase(trim_spec(split_on(trim_spec(s), ';')[0])),
        ),
{
}

} // verus!
