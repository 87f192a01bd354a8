//! One public-procurement contract record.

use vstd::prelude::*;

verus! {

/// A contract record as published; every field is optional free text. `risk_level` and
/// `red_flags` are absent until the record is scored.
#[derive(Clone, Debug, Default)]
pub struct ContratoSecop {
    pub id_contrato: Option<String>,
    pub nombre_entidad: Option<String>,
    pub nit_entidad: Option<String>,
    pub departamento: Option<String>,
    pub ciudad: Option<String>,
    pub objeto_del_contrato: Option<String>,
    pub tipo_de_contrato: Option<String>,
    pub modalidad_de_contratacion: Option<String>,
    pub valor_del_contrato: Option<String>,
    pub nombre_contratista: Option<String>,
    pub nit_contratista: Option<String>,
    pub fecha_de_firma: Option<String>,
    pub fecha_de_inicio_del_contrato: Option<String>,
    pub duracion: Option<String>,
    pub risk_level: Option<String>,
    pub red_flags: Option<Vec<String>>,
}

/// The characters of an optional string.
pub open spec fn opt_chars(o: Option<String>) -> Option<Seq<char>> {
    match o {
        Some(s) => Some(s@),
        None => None,
    }
}

/// `b` is `a` with at most its derived fields, `risk_level` and `red_flags`, changed.
pub open spec fn same_source_fields(a: ContratoSecop, b: ContratoSecop) -> bool {
    &&& b.id_contrato == a.id_contrato
    &&& b.nombre_entidad == a.nombre_entidad
    &&& b.nit_entidad == a.nit_entidad
    &&& b.departamento == a.departamento
    &&& b.ciudad == a.ciudad
    &&& b.objeto_del_contrato == a.objeto_del_contrato
    &&& b.tipo_de_contrato == a.tipo_de_contrato
    &&& b.modalidad_de_contratacion == a.modalidad_de_contratacion
    &&& b.valor_del_contrato == a.valor_del_contrato
    &&& b.nombre_contratista == a.nombre_contratista
    &&& b.nit_contratista == a.nit_contratista
    &&& b.fecha_de_firma == a.fecha_de_firma
    &&& b.fecha_de_inicio_del_contrato == a.fecha_de_inicio_del_contrato
    &&& b.duracion == a.duracion
}

} // verus!
