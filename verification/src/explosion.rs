use vstd::prelude::*;

use crate::conteo::lema_num_bombas_actualizada;
use crate::conteo::num_bombas;
use crate::model::celda::Celda;
use crate::model::objeto::Objeto;
use crate::model::objeto::danar;
use crate::model::objeto::es_bomba;

verus! {

/// La posicion `(x, y)` cae dentro de una grilla de lado `tam`.
pub open spec fn en_rango(tam: int, x: int, y: int) -> bool {
    &&& 0 <= x < tam
    &&& 0 <= y < tam
}

/// La grilla tiene `tam` filas de `tam` celdas.
pub open spec fn forma_valida(g: Seq<Seq<Celda>>, tam: int) -> bool {
    &&& g.len() == tam
    &&& forall|y: int| 0 <= y < tam ==> (#[trigger] g[y]).len() == tam
}

/// La grilla con un punto de dano aplicado a la celda `(x, y)`.
pub open spec fn celda_danada(g: Seq<Seq<Celda>>, x: int, y: int) -> Seq<Seq<Celda>> {
    g.update(
        y,
        g[y].update(x, (Celda { objeto: danar(g[y][x].objeto), x: g[y][x].x, y: g[y][x].y })),
    )
}

/// La grilla con la celda `(x, y)` vaciada.
pub open spec fn celda_vaciada(g: Seq<Seq<Celda>>, x: int, y: int) -> Seq<Seq<Celda>> {
    g.update(y, g[y].update(x, (Celda { objeto: Objeto::Vacio, x: g[y][x].x, y: g[y][x].y })))
}

/// Los marcadores de una explosion recien empezada en `(x, y)`: todo en
/// falso salvo el origen.
pub open spec fn marcas_iniciales(tam: int, x: int, y: int) -> Seq<Seq<bool>> {
    Seq::new(tam as nat, |fy: int| Seq::new(tam as nat, |fx: int| fy == y && fx == x))
}

/// Los marcadores con la posicion `(x, y)` puesta en verdadero.
pub open spec fn marcada(m: Seq<Seq<bool>>, x: int, y: int) -> Seq<Seq<bool>> {
    m.update(y, m[y].update(x, true))
}

/// `nueva`, siempre que no tenga mas bombas que `vieja`. Una detonacion
/// nunca agrega bombas, asi que la cota jamas actua sobre los estados
/// que el motor produce; solo deja a la vista por que las definiciones
/// recursivas de abajo terminan.
pub open spec fn con_bombas_acotadas(nueva: Seq<Seq<Celda>>, vieja: Seq<Seq<Celda>>) -> Seq<
    Seq<Celda>,
> {
    if num_bombas(nueva) <= num_bombas(vieja) {
        nueva
    } else {
        vieja
    }
}

/// Estado de la grilla y de los marcadores despues de que un rayo parte
/// de `(cx, cy)` en la direccion `(dx, dy)` con `pasos` pasos por dar.
///
/// Cada paso avanza la posicion; el rayo termina al salir de la grilla
/// o al tocar una posicion ya marcada. Un desvio cambia la direccion y
/// vuelve a avanzar dentro del mismo paso. Una pared, o una roca cuando
/// la bomba no es de traspaso, detiene el rayo. Si la posicion donde
/// descansa no estaba marcada, recibe un punto de dano y se marca. Una
/// bomba alli detona entera (con sus propios marcadores) antes de que
/// el rayo siga su camino.
pub open spec fn propagar_rayo(
    g: Seq<Seq<Celda>>,
    m: Seq<Seq<bool>>,
    tam: int,
    cx: int,
    cy: int,
    dx: int,
    dy: int,
    pasos: int,
    traspaso: bool,
) -> (Seq<Seq<Celda>>, Seq<Seq<bool>>)
    decreases num_bombas(g), 0int, (if pasos > 0 { pasos } else { 0int }),
{
    if pasos <= 0 || !forma_valida(g, tam) {
        (g, m)
    } else {
        let nx = cx + dx;
        let ny = cy + dy;
        if !en_rango(tam, nx, ny) {
            (g, m)
        } else if m[ny][nx] {
            (g, m)
        } else {
            let dx2 = match g[ny][nx].objeto {
                Objeto::Desvio(d) => d.desplazamiento().0 as int,
                _ => dx,
            };
            let dy2 = match g[ny][nx].objeto {
                Objeto::Desvio(d) => d.desplazamiento().1 as int,
                _ => dy,
            };
            let px = match g[ny][nx].objeto {
                Objeto::Desvio(_) => nx + dx2,
                _ => nx,
            };
            let py = match g[ny][nx].objeto {
                Objeto::Desvio(_) => ny + dy2,
                _ => ny,
            };
            if !en_rango(tam, px, py) {
                (g, m)
            } else if g[py][px].objeto == Objeto::Pared || (g[py][px].objeto == Objeto::Roca
                && !traspaso) {
                (g, m)
            } else {
                let g1 = if !m[py][px] {
                    celda_danada(g, px, py)
                } else {
                    g
                };
                let m1 = if !m[py][px] {
                    marcada(m, px, py)
                } else {
                    m
                };
                proof {
                    if !m[py][px] {
                        let c = Celda {
                            objeto: danar(g[py][px].objeto),
                            x: g[py][px].x,
                            y: g[py][px].y,
                        };
                        lema_num_bombas_actualizada(g, px, py, c);
                    }
                }
                match g1[py][px].objeto {
                    Objeto::Bomba(a) => {
                        let g2 = celda_vaciada(g1, px, py);
                        proof {
                            let c = Celda { objeto: Objeto::Vacio, x: g1[py][px].x, y: g1[py][px].y };
                            lema_num_bombas_actualizada(g1, px, py, c);
                        }
                        let g3 = con_bombas_acotadas(detonacion(g2, tam, px, py, a as int, false), g2);
                        propagar_rayo(g3, m1, tam, px, py, dx2, dy2, pasos - 1, traspaso)
                    },
                    Objeto::BombaTraspaso(a) => {
                        let g2 = celda_vaciada(g1, px, py);
                        proof {
                            let c = Celda { objeto: Objeto::Vacio, x: g1[py][px].x, y: g1[py][px].y };
                            lema_num_bombas_actualizada(g1, px, py, c);
                        }
                        let g3 = con_bombas_acotadas(detonacion(g2, tam, px, py, a as int, true), g2);
                        propagar_rayo(g3, m1, tam, px, py, dx2, dy2, pasos - 1, traspaso)
                    },
                    _ => propagar_rayo(g1, m1, tam, px, py, dx2, dy2, pasos - 1, traspaso),
                }
            }
        }
    }
}

/// Una pared a un paso del origen detiene el rayo de inmediato: el
/// rayo no altera ni la grilla ni los marcadores, cualquiera sea su
/// alcance y sea o no de traspaso la bomba. Las celdas que quedan mas
/// alla de la pared sobre ese rayo no se ven afectadas por el.
pub proof fn lema_pared_detiene_rayo(
    g: Seq<Seq<Celda>>,
    m: Seq<Seq<bool>>,
    tam: int,
    cx: int,
    cy: int,
    dx: int,
    dy: int,
    pasos: int,
    traspaso: bool,
)
    requires
        en_rango(tam, cx + dx, cy + dy),
        g[cy + dy][cx + dx].objeto == Objeto::Pared,
    ensures
        propagar_rayo(g, m, tam, cx, cy, dx, dy, pasos, traspaso) == (g, m),
{
}

/// Estado de la grilla despues de detonar la bomba de la celda
/// `(x, y)`: la celda se vacia y los cuatro rayos parten de alli, en el
/// orden derecha, izquierda, abajo, arriba, compartiendo los marcadores
/// de esta explosion.
pub open spec fn detonacion(
    g: Seq<Seq<Celda>>,
    tam: int,
    x: int,
    y: int,
    alcance: int,
    traspaso: bool,
) -> Seq<Seq<Celda>>
    decreases num_bombas(g), 1int, 0int,
{
    if !forma_valida(g, tam) || !en_rango(tam, x, y) {
        g
    } else {
        let g0 = celda_vaciada(g, x, y);
        let m0 = marcas_iniciales(tam, x, y);
        proof {
            let c = Celda { objeto: Objeto::Vacio, x: g[y][x].x, y: g[y][x].y };
            lema_num_bombas_actualizada(g, x, y, c);
        }
        let r1 = propagar_rayo(g0, m0, tam, x, y, 1, 0, alcance, traspaso);
        let g1 = con_bombas_acotadas(r1.0, g0);
        let r2 = propagar_rayo(g1, r1.1, tam, x, y, -1, 0, alcance, traspaso);
        let g2 = con_bombas_acotadas(r2.0, g1);
        let r3 = propagar_rayo(g2, r2.1, tam, x, y, 0, 1, alcance, traspaso);
        let g3 = con_bombas_acotadas(r3.0, g2);
        let r4 = propagar_rayo(g3, r3.1, tam, x, y, 0, -1, alcance, traspaso);
        con_bombas_acotadas(r4.0, g3)
    }
}

} // verus!
