pub mod mesh_faces;
