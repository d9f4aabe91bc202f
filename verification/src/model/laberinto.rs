use vstd::prelude::*;

use crate::falla::Falla;
use crate::model::celda::Celda;
use crate::model::direccion::Direccion;
use crate::model::objeto::Objeto;
use crate::model::objeto::objeto_valido;

verus! {

/// Las filas de una grilla de celdas como sucesiones.
pub open spec fn vista_de_filas(g: Seq<Vec<Celda>>) -> Seq<Seq<Celda>> {
    Seq::new(g.len(), |y: int| g[y]@)
}

/// Caracteres de espacio que la decodificacion ignora: los espacios en
/// blanco de ASCII.
pub open spec fn es_espacio(c: char) -> bool {
    c == ' ' || c == '\t' || c == '\n' || c == '\r' || c == '\u{000C}'
}

/// La sucesion sin sus caracteres de espacio.
pub open spec fn sin_espacios(s: Seq<char>) -> Seq<char>
    decreases s.len(),
{
    if s.len() == 0 {
        Seq::empty()
    } else if es_espacio(s.last()) {
        sin_espacios(s.drop_last())
    } else {
        sin_espacios(s.drop_last()).push(s.last())
    }
}

/// Un digito decimal.
pub open spec fn es_digito(c: char) -> bool {
    48 <= c as u32 <= 57
}

/// Primera posicion desde `i` que ya no contiene un digito.
pub open spec fn fin_digitos(s: Seq<char>, i: int) -> int
    decreases s.len() - i,
{
    if i < 0 || i >= s.len() || !es_digito(s[i]) {
        i
    } else {
        fin_digitos(s, i + 1)
    }
}

/// Valor decimal de una sucesion de digitos.
pub open spec fn valor_digitos(s: Seq<char>) -> int
    decreases s.len(),
{
    if s.len() == 0 {
        0
    } else {
        valor_digitos(s.drop_last()) * 10 + (s.last() as u32 - 48)
    }
}

/// Valor del numero escrito a partir de la posicion `i`: el valor de la
/// corrida de digitos que empieza alli, o `defecto` si no hay ninguno o
/// si el valor no cabe en un `i32`.
pub open spec fn valor_entero(s: Seq<char>, i: int, defecto: int) -> int {
    let fin = fin_digitos(s, i);
    let v = valor_digitos(s.subrange(i, fin));
    if i < fin && v <= i32::MAX {
        v
    } else {
        defecto
    }
}

/// Direccion que nombra la letra `c`, o `defecto` si no nombra ninguna.
pub open spec fn letra_a_direccion(c: char, defecto: Direccion) -> Direccion {
    if c == 'L' {
        Direccion::Izquierda
    } else if c == 'R' {
        Direccion::Derecha
    } else if c == 'U' {
        Direccion::Arriba
    } else if c == 'D' {
        Direccion::Abajo
    } else {
        defecto
    }
}

/// Objeto que codifica la letra `c`, cuyos datos siguen en `s` a partir
/// de la posicion `i`. Una letra desconocida es una falla.
pub open spec fn objeto_decodificado(c: char, s: Seq<char>, i: int) -> Result<Objeto, Falla> {
    if c == 'F' {
        Ok(Objeto::Enemigo(valor_entero(s, i, 1) as i32))
    } else if c == 'B' {
        Ok(Objeto::Bomba(valor_entero(s, i, 0) as i32))
    } else if c == 'S' {
        Ok(Objeto::BombaTraspaso(valor_entero(s, i, 0) as i32))
    } else if c == 'R' {
        Ok(Objeto::Roca)
    } else if c == 'W' {
        Ok(Objeto::Pared)
    } else if c == 'D' {
        Ok(
            Objeto::Desvio(
                if i < s.len() {
                    letra_a_direccion(s[i], Direccion::Arriba)
                } else {
                    Direccion::Arriba
                },
            ),
        )
    } else if c == '_' {
        Ok(Objeto::Vacio)
    } else {
        Err(Falla::EntradaMalformada)
    }
}

/// Posicion donde termina el token que empieza con la letra `c` en la
/// posicion `i - 1`: los numeros consumen sus digitos y el desvio
/// consume una letra si la hay.
pub open spec fn fin_token(c: char, s: Seq<char>, i: int) -> int {
    if c == 'F' || c == 'B' || c == 'S' {
        fin_digitos(s, i)
    } else if c == 'D' {
        if i < s.len() {
            i + 1
        } else {
            i
        }
    } else {
        i
    }
}

/// Celdas que codifica la linea `s` desde la posicion `i`, numerando
/// las columnas desde `col`, para la fila `fila`. Cada token produce una
/// celda con sus coordenadas.
pub open spec fn fila_decodificada(s: Seq<char>, i: int, col: int, fila: int) -> Result<
    Seq<Celda>,
    Falla,
>
    decreases s.len() - i,
{
    if i >= s.len() {
        Ok(Seq::empty())
    } else {
        match objeto_decodificado(s[i], s, i + 1) {
            Err(f) => Err(f),
            Ok(o) => {
                let fin = fin_token(s[i], s, i + 1);
                let sig = if fin < i + 1 {
                    i + 1
                } else if fin > s.len() {
                    s.len() as int
                } else {
                    fin
                };
                match fila_decodificada(s, sig, col + 1, fila) {
                    Err(f) => Err(f),
                    Ok(resto) => Ok(
                        seq![(Celda { objeto: o, x: col as usize, y: fila as usize })] + resto,
                    ),
                }
            },
        }
    }
}

/// Las primeras `n` lineas decodificadas, cada una sin sus espacios; la
/// primera falla gana.
pub open spec fn filas_decodificadas(lineas: Seq<Seq<char>>, n: int) -> Result<
    Seq<Seq<Celda>>,
    Falla,
>
    decreases n,
{
    if n <= 0 {
        Ok(Seq::empty())
    } else {
        match filas_decodificadas(lineas, n - 1) {
            Err(f) => Err(f),
            Ok(g) => match fila_decodificada(sin_espacios(lineas[n - 1]), 0, 0, n - 1) {
                Err(f) => Err(f),
                Ok(fila) => Ok(g.push(fila)),
            },
        }
    }
}

/// La grilla que codifican las lineas: todas las filas decodificadas, y
/// ninguna puede tener mas o menos celdas que filas hay.
pub open spec fn laberinto_decodificado(lineas: Seq<Seq<char>>) -> Result<Seq<Seq<Celda>>, Falla> {
    match filas_decodificadas(lineas, lineas.len() as int) {
        Err(f) => Err(f),
        Ok(g) => if forall|y: int| 0 <= y < g.len() ==> (#[trigger] g[y]).len() == lineas.len() {
            Ok(g)
        } else {
            Err(Falla::FormaIncorrecta)
        },
    }
}

/// Las lineas de la entrada como sucesiones de caracteres.
pub open spec fn vista_de_lineas(lineas: Seq<Vec<char>>) -> Seq<Seq<char>> {
    Seq::new(lineas.len(), |i: int| lineas[i]@)
}

/// Una falla al decodificar una fila se conserva al decodificar las que
/// siguen.
pub proof fn lema_filas_decodificadas_falla(lineas: Seq<Seq<char>>, m: int, n: int)
    requires
        0 <= m <= n,
        filas_decodificadas(lineas, m) is Err,
    ensures
        filas_decodificadas(lineas, n) == filas_decodificadas(lineas, m),
    decreases n - m,
{
    if n > m {
        lema_filas_decodificadas_falla(lineas, m, n - 1);
    }
}

/// Las celdas que produce `fila_decodificada` llevan como coordenadas
/// su columna y su fila, y todos sus objetos son validos.
pub proof fn lema_fila_decodificada_coordenadas(s: Seq<char>, i: int, col: int, fila: int)
    requires
        0 <= col <= i,
        s.len() <= usize::MAX,
        0 <= fila <= usize::MAX,
    ensures
        match fila_decodificada(s, i, col, fila) {
            Ok(celdas) => {
                &&& celdas.len() + i <= s.len() || celdas.len() == 0
                &&& forall|j: int|
                    0 <= j < celdas.len() ==> {
                        let celda = #[trigger] celdas[j];
                        &&& celda.x == col + j
                        &&& celda.y == fila
                        &&& objeto_valido(celda.objeto)
                    }
            },
            Err(_) => true,
        },
    decreases s.len() - i,
{
    if i >= s.len() {
    } else {
        match objeto_decodificado(s[i], s, i + 1) {
            Err(_) => {},
            Ok(o) => {
                let fin = fin_token(s[i], s, i + 1);
                let sig = if fin < i + 1 {
                    i + 1
                } else if fin > s.len() {
                    s.len() as int
                } else {
                    fin
                };
                lema_fila_decodificada_coordenadas(s, sig, col + 1, fila);
                assert(objeto_valido(o)) by {
                    lema_valor_entero_no_negativo(s, i + 1, 1);
                    lema_valor_entero_no_negativo(s, i + 1, 0);
                }
                match fila_decodificada(s, sig, col + 1, fila) {
                    Err(_) => {},
                    Ok(resto) => {
                        let celda0 = Celda { objeto: o, x: col as usize, y: fila as usize };
                        let celdas = seq![celda0] + resto;
                        assert(fila_decodificada(s, i, col, fila) == Ok::<Seq<Celda>, Falla>(
                            celdas,
                        ));
                        assert forall|j: int| 0 <= j < celdas.len() implies {
                            let celda = #[trigger] celdas[j];
                            &&& celda.x == col + j
                            &&& celda.y == fila
                            &&& objeto_valido(celda.objeto)
                        } by {
                            if j == 0 {
                                assert(celdas[0] == celda0);
                            } else {
                                assert(celdas[j] == resto[j - 1]);
                            }
                        }
                    },
                }
            },
        }
    }
}

/// El valor de una corrida de digitos nunca es negativo.
pub proof fn lema_valor_digitos_no_negativo(s: Seq<char>)
    requires
        forall|k: int| 0 <= k < s.len() ==> es_digito(#[trigger] s[k]),
    ensures
        valor_digitos(s) >= 0,
    decreases s.len(),
{
    if s.len() > 0 {
        lema_valor_digitos_no_negativo(s.drop_last());
        assert(valor_digitos(s.drop_last()) * 10 >= 0) by (nonlinear_arith)
            requires
                valor_digitos(s.drop_last()) >= 0,
        ;
    }
}

/// Con un valor por defecto no negativo, `valor_entero` nunca es
/// negativo.
pub proof fn lema_valor_entero_no_negativo(s: Seq<char>, i: int, defecto: int)
    requires
        0 <= i <= s.len(),
        defecto >= 0,
    ensures
        valor_entero(s, i, defecto) >= 0,
{
    lema_fin_digitos_cota(s, i);
    lema_fin_digitos_digitos(s, i);
    let fin = fin_digitos(s, i);
    let ds = s.subrange(i, fin);
    assert(forall|k: int| 0 <= k < ds.len() ==> es_digito(#[trigger] ds[k]));
    lema_valor_digitos_no_negativo(ds);
}

/// Todos los caracteres antes de `fin_digitos` son digitos.
pub proof fn lema_fin_digitos_digitos(s: Seq<char>, i: int)
    requires
        0 <= i <= s.len(),
    ensures
        forall|k: int| i <= k < fin_digitos(s, i) ==> es_digito(#[trigger] s[k]),
    decreases s.len() - i,
{
    if !(i >= s.len() || !es_digito(s[i])) {
        lema_fin_digitos_digitos(s, i + 1);
    }
}

/// La posicion donde terminan los digitos queda entre `i` y el final.
pub proof fn lema_fin_digitos_cota(s: Seq<char>, i: int)
    requires
        0 <= i <= s.len(),
    ensures
        i <= fin_digitos(s, i) <= s.len(),
    decreases s.len() - i,
{
    if !(i >= s.len() || !es_digito(s[i])) {
        lema_fin_digitos_cota(s, i + 1);
    }
}

/// Un laberinto cuadrado de celdas.
pub struct Laberinto {
    /// Cantidad de filas, igual a la cantidad de columnas.
    pub tamano: usize,
    /// Las celdas, indexadas primero por fila y luego por columna.
    pub grid: Vec<Vec<Celda>>,
}

impl Laberinto {
    /// Las filas del laberinto como sucesiones de celdas.
    pub open spec fn vista(&self) -> Seq<Seq<Celda>> {
        vista_de_filas(self.grid@)
    }

    /// El objeto de la celda en la columna `x` de la fila `y`.
    pub open spec fn objeto_en(&self, x: int, y: int) -> Objeto {
        self.vista()[y][x].objeto
    }

    /// Invariante del laberinto: es cuadrado, cada celda lleva sus
    /// propias coordenadas y todo objeto es valido.
    pub open spec fn bien_formado(&self) -> bool {
        &&& self.vista().len() == self.tamano
        &&& forall|y: int|
            0 <= y < self.tamano ==> (#[trigger] self.vista()[y]).len() == self.tamano
        &&& forall|y: int, x: int|
            0 <= y < self.tamano && 0 <= x < self.tamano ==> {
                let celda = #[trigger] self.vista()[y][x];
                &&& celda.x == x
                &&& celda.y == y
                &&& objeto_valido(celda.objeto)
            }
    }

    /// Reemplaza el objeto de la celda `(x, y)` conservando sus
    /// coordenadas.
    pub fn poner_objeto(&mut self, x: usize, y: usize, o: Objeto)
        requires
            old(self).bien_formado(),
            x < old(self).tamano,
            y < old(self).tamano,
        ensures
            final(self).tamano == old(self).tamano,
            final(self).vista() == old(self).vista().update(
                y as int,
                old(self).vista()[y as int].update(x as int, (Celda {
                    objeto: o,
                    x: x,
                    y: y,
                })),
            ),
            objeto_valido(o) ==> final(self).bien_formado(),
            final(self).objeto_en(x as int, y as int) == o,
    {
        let fila: &mut Vec<Celda> = &mut self.grid[y];
        proof {
            assert(fila@ == old(self).vista()[y as int]);
        }
        let celda: &mut Celda = &mut fila[x];
        celda.objeto = o;
        proof {
            assert(self.vista() =~~= old(self).vista().update(
                y as int,
                old(self).vista()[y as int].update(x as int, (Celda {
                    objeto: o,
                    x: x,
                    y: y,
                })),
            ));
        }
    }

    /// Copia de la linea sin sus caracteres de espacio.
    pub fn eliminar_espacios(linea: &Vec<char>) -> (r: Vec<char>)
        ensures
            r@ == sin_espacios(linea@),
    {
        let mut r: Vec<char> = Vec::new();
        let mut i: usize = 0;
        while i < linea.len()
            invariant
                i <= linea@.len(),
                r@ == sin_espacios(linea@.subrange(0, i as int)),
            decreases linea@.len() - i,
        {
            let c = linea[i];
            if !es_caracter_espacio(c) {
                r.push(c);
            }
            proof {
                let antes = linea@.subrange(0, i as int);
                let ahora = linea@.subrange(0, i + 1);
                assert(ahora.drop_last() =~= antes);
                assert(ahora.last() == c);
            }
            i = i + 1;
        }
        proof {
            assert(linea@.subrange(0, linea@.len() as int) =~= linea@);
        }
        r
    }

    /// Lee la corrida de digitos que empieza en `desde` y devuelve su
    /// valor junto con la posicion que sigue. Si no hay digitos, o si el
    /// valor no cabe en un `i32`, devuelve `valor_defecto`.
    pub fn parsear_entero(linea: &Vec<char>, desde: usize, valor_defecto: i32) -> (r: (i32, usize))
        requires
            desde <= linea@.len(),
        ensures
            r.1 == fin_digitos(linea@, desde as int),
            r.0 == valor_entero(linea@, desde as int, valor_defecto as int),
    {
        let mut pos: usize = desde;
        let mut acumulado: i64 = 0;
        let mut desbordado = false;
        while pos < linea.len() && es_caracter_digito(linea[pos])
            invariant
                desde <= pos <= linea@.len(),
                forall|k: int| desde <= k < pos ==> es_digito(#[trigger] linea@[k]),
                fin_digitos(linea@, pos as int) == fin_digitos(linea@, desde as int),
                !desbordado ==> {
                    &&& acumulado == valor_digitos(linea@.subrange(desde as int, pos as int))
                    &&& 0 <= acumulado <= i32::MAX
                },
                desbordado ==> {
                    &&& valor_digitos(linea@.subrange(desde as int, pos as int)) > i32::MAX
                    &&& pos > desde
                },
            decreases linea@.len() - pos,
        {
            let c = linea[pos];
            let d: i64 = (c as u32 - 48) as i64;
            proof {
                let antes = linea@.subrange(desde as int, pos as int);
                let ahora = linea@.subrange(desde as int, pos + 1);
                assert(ahora.drop_last() =~= antes);
                assert(ahora.last() == c);
                if desbordado {
                    assert(valor_digitos(antes) * 10 + d > i32::MAX) by (nonlinear_arith)
                        requires
                            valor_digitos(antes) > i32::MAX,
                            0 <= d,
                    ;
                }
            }
            if !desbordado {
                if acumulado * 10 + d <= i32::MAX as i64 {
                    acumulado = acumulado * 10 + d;
                } else {
                    desbordado = true;
                }
            }
            pos = pos + 1;
        }
        let valor = if pos == desde || desbordado {
            valor_defecto
        } else {
            acumulado as i32
        };
        (valor, pos)
    }

    /// Lee la letra de direccion en `desde`, si la hay, y la consume;
    /// una letra que no nombra direccion alguna vale `valor_defecto`.
    pub fn parsear_direccion(linea: &Vec<char>, desde: usize, valor_defecto: Direccion) -> (r: (
        Direccion,
        usize,
    ))
        requires
            desde <= linea@.len(),
        ensures
            r.1 == (if desde < linea@.len() {
                desde + 1
            } else {
                desde as int
            }),
            r.0 == (if desde < linea@.len() {
                letra_a_direccion(linea@[desde as int], valor_defecto)
            } else {
                valor_defecto
            }),
    {
        if desde < linea.len() {
            let direccion = match linea[desde] {
                'L' => Direccion::Izquierda,
                'R' => Direccion::Derecha,
                'U' => Direccion::Arriba,
                'D' => Direccion::Abajo,
                _ => valor_defecto,
            };
            (direccion, desde + 1)
        } else {
            (valor_defecto, desde)
        }
    }

    /// Construye el laberinto que codifican las lineas dadas: una linea
    /// por fila, ignorando espacios. Falla con `EntradaMalformada` ante
    /// la primera letra desconocida y con `FormaIncorrecta` si alguna
    /// fila no tiene exactamente tantas celdas como filas hay.
    pub fn desde_lineas(lineas: &Vec<Vec<char>>) -> (r: Result<Laberinto, Falla>)
        ensures
            match r {
                Ok(lab) => {
                    &&& laberinto_decodificado(vista_de_lineas(lineas@)) == Ok::<
                        Seq<Seq<Celda>>,
                        Falla,
                    >(lab.vista())
                    &&& lab.bien_formado()
                    &&& lab.tamano == lineas@.len()
                },
                Err(f) => laberinto_decodificado(vista_de_lineas(lineas@)) == Err::<
                    Seq<Seq<Celda>>,
                    Falla,
                >(f),
            },
    {
        let ghost lv = vista_de_lineas(lineas@);
        let mut grid: Vec<Vec<Celda>> = Vec::new();
        proof {
            assert(vista_de_filas(grid@) =~= Seq::<Seq<Celda>>::empty());
        }
        let mut i: usize = 0;
        while i < lineas.len()
            invariant
                i <= lineas@.len(),
                lv == vista_de_lineas(lineas@),
                grid@.len() == i,
                filas_decodificadas(lv, i as int) == Ok::<Seq<Seq<Celda>>, Falla>(
                    vista_de_filas(grid@),
                ),
                forall|k: int, j: int|
                    0 <= k < i && 0 <= j < grid@[k]@.len() ==> {
                        let celda = #[trigger] grid@[k]@[j];
                        &&& celda.x == j
                        &&& celda.y == k
                        &&& objeto_valido(celda.objeto)
                    },
            decreases lineas@.len() - i,
        {
            let limpia = Self::eliminar_espacios(&lineas[i]);
            proof {
                assert(lv[i as int] == lineas@[i as int]@);
            }
            let fila = match Self::cargar_laberinto_desde_linea(&limpia, i) {
                Ok(fila) => fila,
                Err(f) => {
                    proof {
                        assert(filas_decodificadas(lv, i + 1) == Err::<Seq<Seq<Celda>>, Falla>(f));
                        lema_filas_decodificadas_falla(lv, i + 1, lv.len() as int);
                    }
                    return Err(f);
                },
            };
            proof {
                lema_fila_decodificada_coordenadas(limpia@, 0, 0, i as int);
                assert(vista_de_filas(grid@.push(fila)) =~~= vista_de_filas(grid@).push(fila@));
            }
            grid.push(fila);
            i = i + 1;
        }
        let tamano = grid.len();
        let mut y: usize = 0;
        while y < tamano
            invariant
                y <= tamano,
                tamano == grid@.len(),
                tamano == lineas@.len(),
                lv == vista_de_lineas(lineas@),
                filas_decodificadas(lv, tamano as int) == Ok::<Seq<Seq<Celda>>, Falla>(
                    vista_de_filas(grid@),
                ),
                forall|k: int| 0 <= k < y ==> (#[trigger] grid@[k])@.len() == tamano,
                forall|k: int, j: int|
                    0 <= k < tamano && 0 <= j < grid@[k]@.len() ==> {
                        let celda = #[trigger] grid@[k]@[j];
                        &&& celda.x == j
                        &&& celda.y == k
                        &&& objeto_valido(celda.objeto)
                    },
            decreases tamano - y,
        {
            if grid[y].len() != tamano {
                proof {
                    let g = vista_de_filas(grid@);
                    assert(g[y as int].len() != lineas@.len());
                }
                return Err(Falla::FormaIncorrecta);
            }
            y = y + 1;
        }
        let laberinto = Laberinto { tamano: tamano, grid: grid };
        proof {
            let g = vista_de_filas(laberinto.grid@);
            assert(forall|k: int| 0 <= k < g.len() ==> (#[trigger] g[k]).len() == lineas@.len());
        }
        Ok(laberinto)
    }

    /// Decodifica el objeto que empieza con la letra `c`; sus datos, si
    /// los tiene, siguen en la linea a partir de `desde`. Devuelve el
    /// objeto (o la falla, si la letra no nombra ninguno) y la posicion
    /// donde termina el token.
    pub fn cargar_objeto(c: char, linea: &Vec<char>, desde: usize) -> (r: (
        Result<Objeto, Falla>,
        usize,
    ))
        requires
            desde <= linea@.len(),
        ensures
            r.0 == objeto_decodificado(c, linea@, desde as int),
            r.1 == fin_token(c, linea@, desde as int),
            desde <= r.1 <= linea@.len(),
    {
        proof {
            lema_fin_digitos_cota(linea@, desde as int);
        }
        match c {
            'F' => {
                let (vidas, fin) = Self::parsear_entero(linea, desde, 1);
                (Ok(Objeto::Enemigo(vidas)), fin)
            },
            'B' => {
                let (alcance, fin) = Self::parsear_entero(linea, desde, 0);
                (Ok(Objeto::Bomba(alcance)), fin)
            },
            'S' => {
                let (alcance, fin) = Self::parsear_entero(linea, desde, 0);
                (Ok(Objeto::BombaTraspaso(alcance)), fin)
            },
            'R' => (Ok(Objeto::Roca), desde),
            'W' => (Ok(Objeto::Pared), desde),
            'D' => {
                let (direccion, fin) = Self::parsear_direccion(linea, desde, Direccion::Arriba);
                (Ok(Objeto::Desvio(direccion)), fin)
            },
            '_' => (Ok(Objeto::Vacio), desde),
            _ => (Err(Falla::EntradaMalformada), desde),
        }
    }

    /// Decodifica una linea entera como la fila `fila_index` del
    /// laberinto: un token por celda, con la columna como coordenada
    /// `x`. La primera letra desconocida corta con su falla.
    pub fn cargar_laberinto_desde_linea(linea: &Vec<char>, fila_index: usize) -> (r: Result<
        Vec<Celda>,
        Falla,
    >)
        ensures
            match r {
                Ok(celdas) => fila_decodificada(linea@, 0, 0, fila_index as int) == Ok::<
                    Seq<Celda>,
                    Falla,
                >(celdas@),
                Err(f) => fila_decodificada(linea@, 0, 0, fila_index as int) == Err::<
                    Seq<Celda>,
                    Falla,
                >(f),
            },
    {
        let mut celdas: Vec<Celda> = Vec::new();
        let mut pos: usize = 0;
        let mut col: usize = 0;
        while pos < linea.len()
            invariant
                pos <= linea@.len(),
                col <= pos,
                celdas@.len() == col,
                fila_decodificada(linea@, 0, 0, fila_index as int) == (match fila_decodificada(
                    linea@,
                    pos as int,
                    col as int,
                    fila_index as int,
                ) {
                    Ok(resto) => Ok::<Seq<Celda>, Falla>(celdas@ + resto),
                    Err(f) => Err::<Seq<Celda>, Falla>(f),
                }),
            decreases linea@.len() - pos,
        {
            let c = linea[pos];
            let (resultado, fin) = Self::cargar_objeto(c, linea, pos + 1);
            let objeto = match resultado {
                Ok(o) => o,
                Err(f) => {
                    return Err(f);
                },
            };
            let celda = Celda { objeto: objeto, x: col, y: fila_index };
            proof {
                let s = linea@;
                let resto_antes = fila_decodificada(s, pos as int, col as int, fila_index as int);
                let resto_despues = fila_decodificada(s, fin as int, col + 1, fila_index as int);
                match resto_despues {
                    Ok(cola) => {
                        assert(celdas@ + (seq![celda] + cola) =~= celdas@.push(celda) + cola);
                    },
                    Err(_) => {},
                }
            }
            celdas.push(celda);
            col = col + 1;
            pos = fin;
        }
        Ok(celdas)
    }
}

/// Decide en tiempo de ejecucion el predicado `es_espacio`.
fn es_caracter_espacio(c: char) -> (r: bool)
    ensures
        r == es_espacio(c),
{
    c == ' ' || c == '\t' || c == '\n' || c == '\r' || c == '\u{000C}'
}

/// Decide en tiempo de ejecucion el predicado `es_digito`.
fn es_caracter_digito(c: char) -> (r: bool)
    ensures
        r == es_digito(c),
{
    let u = c as u32;
    48 <= u && u <= 57
}

} // verus!
