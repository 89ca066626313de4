//! Addresses: the nested object optionally embedded inside a supplier.

use crate::text;
use crate::value::{get_m, vm, vm_fields, Value, Vm};
use vstd::prelude::*;
use vstd::string::*;

verus! {

/// An address, stored as a nested object of its supplier.
#[derive(Debug, PartialEq, Clone)]
pub struct Endereco {
    pub rua: String,
    pub numero: Option<i32>,
    pub complemento: Option<String>,
    pub bairro: String,
    pub cidade: String,
    pub estado: String,
    pub cep: String,
}

/// An optional string as a stored value: absent is null.
pub open spec fn opt_str_m(o: Option<String>) -> Vm {
    match o {
        Some(s) => Vm::Str(s@),
        None => Vm::Null,
    }
}

/// A signed number in decimal, with a sign when negative.
pub open spec fn int_dec_model(n: int) -> Seq<char> {
    if n >= 0 {
        text::dec_model(n as nat)
    } else {
        seq!['-'] + text::dec_model((-n) as nat)
    }
}

/// The serialized document of an address.
pub open spec fn endereco_doc(e: Endereco) -> Vm {
    Vm::Obj(
        seq![
            ("rua"@, Vm::Str(e.rua@)),
            (
                "numero"@,
                match e.numero {
                    Some(n) => Vm::Int(n as int),
                    None => Vm::Null,
                },
            ),
            ("complemento"@, opt_str_m(e.complemento)),
            ("bairro"@, Vm::Str(e.bairro@)),
            ("cidade"@, Vm::Str(e.cidade@)),
            ("estado"@, Vm::Str(e.estado@)),
            ("cep"@, Vm::Str(e.cep@)),
        ],
    )
}

/// The single-line rendering of an address.
pub open spec fn full_address_model(e: Endereco) -> Seq<char> {
    e.rua@ + " "@ + (match e.numero {
        Some(n) => int_dec_model(n as int),
        None => Seq::<char>::empty(),
    }) + ", "@ + (match e.complemento {
        Some(c) => ", "@ + c@,
        None => Seq::<char>::empty(),
    }) + " , "@ + e.bairro@ + " , "@ + e.cidade@ + " , "@ + e.estado@ + " , "@ + e.cep@
}

impl Endereco {
    /// Renders the address as one line: street and number, the optional
    /// complement, then quarter, city, state and postal code.
    pub fn full_address(&self) -> (r: String)
        ensures
            r@ == full_address_model(*self),
    {
        let mut s = String::new();
        s.append(self.rua.as_str());
        s.append(" ");
        match self.numero {
            Some(n) => {
                let d = text::i64_to_dec(n as i64);
                s.append(d.as_str());
            },
            None => {},
        }
        s.append(", ");
        match &self.complemento {
            Some(c) => {
                s.append(", ");
                s.append(c.as_str());
            },
            None => {},
        }
        s.append(" , ");
        s.append(self.bairro.as_str());
        s.append(" , ");
        s.append(self.cidade.as_str());
        s.append(" , ");
        s.append(self.estado.as_str());
        s.append(" , ");
        s.append(self.cep.as_str());
        proof {
            assert(s@ =~= full_address_model(*self));
        }
        s
    }

    /// An address from its parts.
    pub fn new(
        rua: String,
        numero: Option<i32>,
        complemento: Option<String>,
        bairro: String,
        cidade: String,
        estado: String,
        cep: String,
    ) -> (r: Self)
        ensures
            r == (Endereco { rua, numero, complemento, bairro, cidade, estado, cep }),
    {
        Endereco { rua, numero, complemento, bairro, cidade, estado, cep }
    }
}

/// Which stored values read back as an address.
pub open spec fn endereco_ok(v: Vm) -> bool {
    &&& v is Obj
    &&& get_m(v, "rua"@) matches Some(w) && w is Str
    &&& get_m(v, "numero"@) matches Some(w) && (w is Null || (w is Int && i32::MIN
        <= w->Int_0 <= i32::MAX))
    &&& get_m(v, "complemento"@) matches Some(w) && (w is Null || w is Str)
    &&& get_m(v, "bairro"@) matches Some(w) && w is Str
    &&& get_m(v, "cidade"@) matches Some(w) && w is Str
    &&& get_m(v, "estado"@) matches Some(w) && w is Str
    &&& get_m(v, "cep"@) matches Some(w) && w is Str
}

/// The canonical re-serialization of a readable address value.
pub open spec fn endereco_canon(v: Vm) -> Vm {
    Vm::Obj(
        seq![
            ("rua"@, get_m(v, "rua"@)->Some_0),
            ("numero"@, get_m(v, "numero"@)->Some_0),
            ("complemento"@, get_m(v, "complemento"@)->Some_0),
            ("bairro"@, get_m(v, "bairro"@)->Some_0),
            ("cidade"@, get_m(v, "cidade"@)->Some_0),
            ("estado"@, get_m(v, "estado"@)->Some_0),
            ("cep"@, get_m(v, "cep"@)->Some_0),
        ],
    )
}

/// An address's own serialized document reads back as the same document.
pub proof fn lemma_endereco_canon_own(e: Endereco)
    ensures
        endereco_ok(endereco_doc(e)),
        endereco_canon(endereco_doc(e)) == endereco_doc(e),
{
    reveal_strlit("rua");
    reveal_strlit("numero");
    reveal_strlit("complemento");
    reveal_strlit("bairro");
    reveal_strlit("cidade");
    reveal_strlit("estado");
    reveal_strlit("cep");
    assert("rua"@.len() == 3 && "numero"@.len() == 6 && "complemento"@.len() == 11
        && "bairro"@.len() == 6 && "cidade"@.len() == 6 && "estado"@.len() == 6
        && "cep"@.len() == 3);
    assert("rua"@[0] == 'r' && "numero"@[0] == 'n' && "bairro"@[0] == 'b' && "cidade"@[0] == 'c'
        && "estado"@[0] == 'e' && "cep"@[0] == 'c' && "cep"@[1] == 'e' && "cidade"@[1] == 'i');
    let fs = endereco_doc(e)->Obj_0;
    assert(fs[0].0 == "rua"@ && fs[1].0 == "numero"@ && fs[2].0 == "complemento"@ && fs[3].0
        == "bairro"@ && fs[4].0 == "cidade"@ && fs[5].0 == "estado"@ && fs[6].0 == "cep"@);
    crate::value::lemma_get_at_first(fs, "rua"@, 0, 0);
    crate::value::lemma_get_at_first(fs, "numero"@, 0, 1);
    crate::value::lemma_get_at_first(fs, "complemento"@, 0, 2);
    crate::value::lemma_get_at_first(fs, "bairro"@, 0, 3);
    crate::value::lemma_get_at_first(fs, "cidade"@, 0, 4);
    crate::value::lemma_get_at_first(fs, "estado"@, 0, 5);
    crate::value::lemma_get_at_first(fs, "cep"@, 0, 6);
    assert(endereco_canon(endereco_doc(e))->Obj_0 =~= fs);
    assert(endereco_canon(endereco_doc(e)) == endereco_doc(e));
}

/// Serializes an address to its document.
pub fn endereco_to_doc(e: &Endereco) -> (d: Value)
    ensures
        vm(d) == endereco_doc(*e),
{
    let mut fs: Vec<(String, Value)> = Vec::new();
    fs.push((String::from_str("rua"), Value::Str(e.rua.clone())));
    let numero = match e.numero {
        Some(n) => Value::Int(n as i64),
        None => Value::Null,
    };
    fs.push((String::from_str("numero"), numero));
    let comp = match &e.complemento {
        Some(c) => Value::Str(c.clone()),
        None => Value::Null,
    };
    fs.push((String::from_str("complemento"), comp));
    fs.push((String::from_str("bairro"), Value::Str(e.bairro.clone())));
    fs.push((String::from_str("cidade"), Value::Str(e.cidade.clone())));
    fs.push((String::from_str("estado"), Value::Str(e.estado.clone())));
    fs.push((String::from_str("cep"), Value::Str(e.cep.clone())));
    let d = Value::Obj(fs);
    proof {
        crate::value::lemma_vm_fields(d->Obj_0@);
        assert(vm_fields(d->Obj_0@) =~= endereco_doc(*e)->Obj_0);
    }
    d
}

/// Reads an address back from a stored value.
pub fn endereco_from_doc(d: &Value) -> (r: Option<Endereco>)
    ensures
        r is Some <==> endereco_ok(vm(*d)),
        match r {
            Some(e) => endereco_doc(e) == endereco_canon(vm(*d)),
            None => true,
        },
{
    let rua = {
        proof {
            reveal_strlit("rua");
        }
        match d.get_field("rua") {
            Some(Value::Str(s)) => s.clone(),
            _ => {
                return None;
            },
        }
    };
    let numero = {
        proof {
            reveal_strlit("numero");
        }
        match d.get_field("numero") {
            Some(Value::Null) => None,
            Some(Value::Int(i)) => {
                if *i < i32::MIN as i64 || *i > i32::MAX as i64 {
                    return None;
                }
                Some(*i as i32)
            },
            _ => {
                return None;
            },
        }
    };
    let complemento = {
        proof {
            reveal_strlit("complemento");
        }
        match d.get_field("complemento") {
            Some(Value::Null) => None,
            Some(Value::Str(s)) => Some(s.clone()),
            _ => {
                return None;
            },
        }
    };
    let bairro = {
        proof {
            reveal_strlit("bairro");
        }
        match d.get_field("bairro") {
            Some(Value::Str(s)) => s.clone(),
            _ => {
                return None;
            },
        }
    };
    let cidade = {
        proof {
            reveal_strlit("cidade");
        }
        match d.get_field("cidade") {
            Some(Value::Str(s)) => s.clone(),
            _ => {
                return None;
            },
        }
    };
    let estado = {
        proof {
            reveal_strlit("estado");
        }
        match d.get_field("estado") {
            Some(Value::Str(s)) => s.clone(),
            _ => {
                return None;
            },
        }
    };
    let cep = {
        proof {
            reveal_strlit("cep");
        }
        match d.get_field("cep") {
            Some(Value::Str(s)) => s.clone(),
            _ => {
                return None;
            },
        }
    };
    let e = Endereco { rua, numero, complemento, bairro, cidade, estado, cep };
    proof {
        assert(endereco_doc(e)->Obj_0 =~~= endereco_canon(vm(*d))->Obj_0);
        assert(endereco_doc(e) == endereco_canon(vm(*d)));
    }
    Some(e)
}

} // verus!
