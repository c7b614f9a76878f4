//! Square wall textures, one per wall symbol.

use vstd::prelude::*;
use crate::color::Rgba;
use crate::face::MAX_TEXTURE;

verus! {

/// A square texture of `size` by `size` texels, row by row, for one symbol.
pub struct Texture {
    symbol: char,
    size: u32,
    texels: Vec<Rgba>,
}

/// What a texture is: its symbol, side and texels.
pub struct TextureModel {
    pub symbol: char,
    pub size: nat,
    pub texels: Seq<Rgba>,
}

impl View for Texture {
    type V = TextureModel;

    closed spec fn view(&self) -> TextureModel {
        TextureModel { symbol: self.symbol, size: self.size as nat, texels: self.texels@ }
    }
}

/// A texture model whose texels fill its square.
pub open spec fn texture_ok(t: TextureModel) -> bool {
    0 < t.size <= MAX_TEXTURE && t.texels.len() == t.size * t.size
}

impl Texture {
    #[verifier::type_invariant]
    spec fn inv(self) -> bool {
        texture_ok(self@)
    }

    /// A texture for `symbol`, or `None` unless `texels` holds exactly
    /// `size * size` texels and `size` is in `(0, MAX_TEXTURE]`.
    pub fn new(symbol: char, size: u32, texels: Vec<Rgba>) -> (r: Option<Texture>)
        ensures
            r is Some <==> 0 < size <= MAX_TEXTURE && texels@.len() == size * size,
            r is Some ==> r->0@ == (TextureModel { symbol, size: size as nat, texels: texels@ }),
    {
        if size == 0 || size > MAX_TEXTURE {
            return None;
        }
        assert(size * size <= MAX_TEXTURE * MAX_TEXTURE) by (nonlinear_arith)
            requires 0 < size <= MAX_TEXTURE;
        if texels.len() as u64 != (size as u64) * (size as u64) {
            return None;
        }
        Some(Texture { symbol, size, texels })
    }

    pub fn symbol(&self) -> (r: char)
        ensures
            r == self@.symbol,
    {
        self.symbol
    }

    pub fn size(&self) -> (r: u32)
        ensures
            r == self@.size,
            texture_ok(self@),
    {
        proof { use_type_invariant(self); }
        self.size
    }

    /// The texel at column `u`, row `v`.
    pub fn texel(&self, u: u32, v: u32) -> (c: Rgba)
        requires
            u < self@.size,
            v < self@.size,
        ensures
            c == self@.texels[v * self@.size + u],
    {
        proof { use_type_invariant(self); }
        let sz = self.size as u64;
        let vv = v as u64;
        let uu = u as u64;
        assert(vv * sz + uu < sz * sz <= MAX_TEXTURE * MAX_TEXTURE) by (nonlinear_arith)
            requires uu < sz, vv < sz, sz <= MAX_TEXTURE;
        let i = vv * sz + uu;
        assert(i < self.texels@.len());
        let i = i as usize;
        self.texels[i]
    }
}

/// At most one texture for each symbol.
pub open spec fn symbols_distinct(s: Seq<TextureModel>) -> bool {
    forall|i: int, j: int| 0 <= i < s.len() && 0 <= j < s.len() && #[trigger] s[i].symbol == #[trigger] s[j].symbol ==> i == j
}

/// The texture for `symbol`, if the set has one.
pub open spec fn texture_for(s: Seq<TextureModel>, symbol: char) -> Option<TextureModel> {
    if exists|i: int| 0 <= i < s.len() && #[trigger] s[i].symbol == symbol {
        Some(s[choose|i: int| 0 <= i < s.len() && #[trigger] s[i].symbol == symbol])
    } else {
        None
    }
}

/// The wall textures, keyed by symbol.
pub struct TextureSet {
    textures: Vec<Texture>,
}

impl View for TextureSet {
    type V = Seq<TextureModel>;

    closed spec fn view(&self) -> Seq<TextureModel> {
        self.textures@.map_values(|t: Texture| t@)
    }
}

impl TextureSet {
    #[verifier::type_invariant]
    spec fn inv(self) -> bool {
        symbols_distinct(self@)
    }

    /// The set of these textures, or `None` when two share a symbol.
    pub fn new(textures: Vec<Texture>) -> (r: Option<TextureSet>)
        ensures
            r is Some <==> symbols_distinct(textures@.map_values(|t: Texture| t@)),
            r is Some ==> r->0@ == textures@.map_values(|t: Texture| t@),
    {
        let ghost s = textures@.map_values(|t: Texture| t@);
        let n = textures.len();
        let mut i: usize = 0;
        while i < n
            invariant
                0 <= i <= n,
                n == s.len(),
                s == textures@.map_values(|t: Texture| t@),
                forall|a: int, b: int|
                    0 <= a < i && 0 <= b < n && #[trigger] s[a].symbol == #[trigger] s[b].symbol ==> a == b,
            decreases n - i,
        {
            let mut j: usize = 0;
            while j < n
                invariant
                    0 <= i < n,
                    0 <= j <= n,
                    n == s.len(),
                    s == textures@.map_values(|t: Texture| t@),
                    forall|a: int, b: int|
                        0 <= a < i && 0 <= b < n && #[trigger] s[a].symbol == #[trigger] s[b].symbol ==> a == b,
                    forall|b: int| 0 <= b < j && s[i as int].symbol == #[trigger] s[b].symbol ==> i == b,
                decreases n - j,
            {
                if j != i && textures[i].symbol() == textures[j].symbol() {
                    assert(s[i as int].symbol == s[j as int].symbol);
                    return None;
                }
                j += 1;
            }
            i += 1;
        }
        Some(TextureSet { textures })
    }

    /// The texture for `symbol`, if there is one.
    pub fn find(&self, symbol: char) -> (r: Option<&Texture>)
        ensures
            r is Some <==> texture_for(self@, symbol) is Some,
            r is Some ==> r->0@ == texture_for(self@, symbol)->0,
    {
        proof { use_type_invariant(self); }
        let ghost s = self@;
        let mut i: usize = 0;
        while i < self.textures.len()
            invariant
                0 <= i <= self.textures@.len(),
                s == self@,
                s.len() == self.textures@.len(),
                symbols_distinct(s),
                forall|k: int| 0 <= k < i ==> #[trigger] s[k].symbol != symbol,
            decreases self.textures@.len() - i,
        {
            if self.textures[i].symbol() == symbol {
                assert(s[i as int].symbol == symbol);
                return Some(&self.textures[i]);
            }
            i += 1;
        }
        None
    }
}

} // verus!
